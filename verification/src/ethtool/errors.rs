//! What can go wrong while a driver's statistics are read.

use vstd::prelude::*;

verus! {

/// Why a buffer that the kernel filled could not be read.
#[derive(Clone, Copy, Debug, PartialEq, Eq, Structural)]
pub enum ParseFailure {
    /// The name slot `index` does not lie inside the buffer.
    NameOutOfBounds { index: usize },
    /// The name slot `index` holds no NUL byte.
    NameUnterminated { index: usize },
    /// The bytes before the NUL of name slot `index` are not UTF-8.
    NameNotText { index: usize },
    /// The eight bytes of value `index` do not lie inside the buffer.
    ValueOutOfBounds { index: usize },
    /// The reply to the size query is too short to hold a count.
    CountOutOfBounds,
    /// The queue index inside a per-queue statistic's name is not a number.
    QueueId,
}

/// A failure of one interface's statistics read. Kernel failures carry the
/// errno of the ioctl that failed.
#[derive(Clone, Copy, Debug, PartialEq, Eq, Structural)]
pub enum Error {
    /// The query for the number of statistics failed.
    GSSetInfoReadError(i32),
    /// The query for the statistics' names failed.
    GStringsReadError(i32),
    /// The query for the statistics' values failed.
    GStatsReadError(i32),
    /// The kernel answered, but the answer could not be read.
    ParseError(ParseFailure),
}

/// A result with what it holds on success as plain values.
pub open spec fn outcome_view<T: DeepView>(r: Result<T, Error>) -> Result<T::V, Error> {
    match r {
        Ok(value) => Ok(value.deep_view()),
        Err(e) => Err(e),
    }
}

} // verus!
