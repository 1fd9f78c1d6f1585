//! Reading the text form.
pub mod attrs;
pub mod lists;
pub mod round_trip;
pub mod scope;
pub mod text;
pub mod types;

use vstd::prelude::*;
use crate::error::Error;
use crate::error::ErrorView;

verus! {

/// A stretch of the text.
#[derive(Clone, Copy, Debug, PartialEq, Eq, Structural)]
pub struct Span {
    pub start: usize,
    pub end: usize,
}

/// What reading a piece of the text gives: what was read and where it ends, or
/// where it failed and why.
pub type Parsed<T> = Result<(T, int), (int, ErrorView)>;

/// What a reader hands back: what it read, or where it failed and why.
pub type ParseResult<T> = Result<T, (Span, Error)>;

/// Where a reader stands.
pub ghost struct ParserView {
    pub text: Seq<char>,
    pub pos: int,
}

impl ParserView {
    /// Whether the position lies in the text or at its end.
    pub open spec fn wf(self) -> bool {
        0 <= self.pos <= self.text.len() <= usize::MAX
    }

    /// The same text further on.
    pub open spec fn at(self, pos: int) -> Self {
        ParserView { pos, ..self }
    }
}

/// Whether a reader that stood at `before` and now stands at `after` handed back
/// what `expected` says.
pub open spec fn reads<T, V>(
    r: ParseResult<T>,
    before: ParserView,
    after: ParserView,
    expected: Parsed<V>,
    view: spec_fn(T) -> V,
) -> bool {
    match expected {
        Ok((v, end)) => r is Ok && view(r->Ok_0) == v && after == before.at(end),
        Err((at, error)) => r is Err && r->Err_0.0 == (Span {
            start: at as usize,
            end: at as usize,
        }) && r->Err_0.1@ == error && after == before.at(at),
    }
}

} // verus!
