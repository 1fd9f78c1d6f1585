//! What parsing and verification report.
use vstd::prelude::*;
use vstd::string::*;
use crate::text::cat2;
use crate::text::cat3;
use crate::text::cat5;

verus! {

/// Why a text could not be read or an operation is not valid.
#[derive(Debug)]
pub enum Error {
    UnknownDialect(String),
    UnknownOperation(String, String),
    UnknownType(String, String),
    ExpectedToken(&'static str),
    ExpectedOpName,
    ExpectedOperation(&'static str, &'static str),
    ExpectedType,
    ExpectedValueRef,
    ExpectedSymbolName,
    UnknownValueRef(String),
    UnknownAttributeAlias(String),
    InvalidPredicate(String, String),
    VerificationError(String),
}

/// What an error says.
pub ghost enum ErrorView {
    UnknownDialect(Seq<char>),
    UnknownOperation(Seq<char>, Seq<char>),
    UnknownType(Seq<char>, Seq<char>),
    ExpectedToken(Seq<char>),
    ExpectedOpName,
    ExpectedOperation(Seq<char>, Seq<char>),
    ExpectedType,
    ExpectedValueRef,
    ExpectedSymbolName,
    UnknownValueRef(Seq<char>),
    UnknownAttributeAlias(Seq<char>),
    InvalidPredicate(Seq<char>, Seq<char>),
    VerificationError(Seq<char>),
}

impl View for Error {
    type V = ErrorView;

    open spec fn view(&self) -> ErrorView {
        match self {
            Error::UnknownDialect(d) => ErrorView::UnknownDialect(d@),
            Error::UnknownOperation(d, o) => ErrorView::UnknownOperation(d@, o@),
            Error::UnknownType(d, t) => ErrorView::UnknownType(d@, t@),
            Error::ExpectedToken(t) => ErrorView::ExpectedToken(t@),
            Error::ExpectedOpName => ErrorView::ExpectedOpName,
            Error::ExpectedOperation(d, o) => ErrorView::ExpectedOperation(d@, o@),
            Error::ExpectedType => ErrorView::ExpectedType,
            Error::ExpectedValueRef => ErrorView::ExpectedValueRef,
            Error::ExpectedSymbolName => ErrorView::ExpectedSymbolName,
            Error::UnknownValueRef(v) => ErrorView::UnknownValueRef(v@),
            Error::UnknownAttributeAlias(a) => ErrorView::UnknownAttributeAlias(a@),
            Error::InvalidPredicate(o, p) => ErrorView::InvalidPredicate(o@, p@),
            Error::VerificationError(m) => ErrorView::VerificationError(m@),
        }
    }
}

impl ErrorView {
    /// The sentence the error is reported with.
    pub open spec fn sentence(self) -> Seq<char> {
        match self {
            ErrorView::UnknownDialect(d) => "Unknown dialect '"@ + d + "'"@,
            ErrorView::UnknownOperation(d, o) => "Unknown operation '"@ + o + "' in dialect '"@ + d
                + "'"@,
            ErrorView::UnknownType(d, t) => "Unknown type '"@ + t + "' in dialect '"@ + d + "'"@,
            ErrorView::ExpectedToken(t) => "Expected '"@ + t + "'"@,
            ErrorView::ExpectedOpName =>
                "Expected operation name in format 'op_name' or 'dialect_name.op_name'"@,
            ErrorView::ExpectedOperation(d, o) => "Expected '"@ + d + "."@ + o + "'"@,
            ErrorView::ExpectedType => "Expected type"@,
            ErrorView::ExpectedValueRef => "Expected value reference"@,
            ErrorView::ExpectedSymbolName => "Expected symbol name"@,
            ErrorView::UnknownValueRef(v) => "Unknown value reference '%"@ + v + "'"@,
            ErrorView::UnknownAttributeAlias(a) => "Unknown attribute alias '#"@ + a + "'"@,
            ErrorView::InvalidPredicate(o, p) => "'"@ + p + "' is not a comparison predicate for '"@
                + o + "'"@,
            ErrorView::VerificationError(m) => "Operation verification failed: "@ + m,
        }
    }
}

impl Error {
    /// The sentence the error is reported with.
    pub fn message(&self) -> (s: String)
        ensures
            s@ == self@.sentence(),
    {
        match self {
            Error::UnknownDialect(d) => cat3("Unknown dialect '", d.as_str(), "'"),
            Error::UnknownOperation(d, o) => cat5(
                "Unknown operation '",
                o.as_str(),
                "' in dialect '",
                d.as_str(),
                "'",
            ),
            Error::UnknownType(d, t) => cat5(
                "Unknown type '",
                t.as_str(),
                "' in dialect '",
                d.as_str(),
                "'",
            ),
            Error::ExpectedToken(t) => cat3("Expected '", t, "'"),
            Error::ExpectedOpName =>
                "Expected operation name in format 'op_name' or 'dialect_name.op_name'".to_owned(),
            Error::ExpectedOperation(d, o) => cat5("Expected '", d, ".", o, "'"),
            Error::ExpectedType => "Expected type".to_owned(),
            Error::ExpectedValueRef => "Expected value reference".to_owned(),
            Error::ExpectedSymbolName => "Expected symbol name".to_owned(),
            Error::UnknownValueRef(v) => cat3("Unknown value reference '%", v.as_str(), "'"),
            Error::UnknownAttributeAlias(a) => cat3("Unknown attribute alias '#", a.as_str(), "'"),
            Error::InvalidPredicate(o, p) => cat5(
                "'",
                p.as_str(),
                "' is not a comparison predicate for '",
                o.as_str(),
                "'",
            ),
            Error::VerificationError(m) => cat2("Operation verification failed: ", m.as_str()),
        }
    }
}

/// A failed verification reported as `message`.
pub fn invalid(message: &str) -> (e: Error)
    ensures
        e@ == ErrorView::VerificationError(message@),
{
    Error::VerificationError(message.to_owned())
}

/// The outcome of a check that fails with the message `failure` names.
pub open spec fn verdict(r: Result<(), Error>, failure: Option<Seq<char>>) -> bool {
    match r {
        Ok(_) => failure is None,
        Err(e) => failure is Some && e@ == ErrorView::VerificationError(failure->0),
    }
}

/// The first of two failures.
pub open spec fn either(a: Option<Seq<char>>, b: Option<Seq<char>>) -> Option<Seq<char>> {
    match a {
        Some(_) => a,
        None => b,
    }
}

/// The first failure of `n` checks made in order.
pub open spec fn first_failure(at: spec_fn(int) -> Option<Seq<char>>, n: int) -> Option<Seq<char>>
    decreases n,
{
    if n <= 0 {
        None
    } else {
        either(first_failure(at, n - 1), at(n - 1))
    }
}

/// A failure that was found stays the first one, whatever is checked after it.
pub proof fn first_failure_stays(at: spec_fn(int) -> Option<Seq<char>>, n: int, m: int)
    requires
        0 < n <= m,
        first_failure(at, n) is Some,
    ensures
        first_failure(at, m) == first_failure(at, n),
    decreases m - n,
{
    if n < m {
        first_failure_stays(at, n, m - 1);
    }
}

/// Nothing failed exactly when no single check did.
pub proof fn no_failure_anywhere(at: spec_fn(int) -> Option<Seq<char>>, n: int)
    ensures
        first_failure(at, n) is None <==> forall|i: int| 0 <= i < n ==> (#[trigger] at(i)) is None,
    decreases n,
{
    if n > 0 {
        no_failure_anywhere(at, n - 1);
    }
}

} // verus!
