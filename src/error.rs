use vstd::prelude::*;

verus! {

/// Every way a price query can fail.
#[derive(Debug, Clone, Copy, PartialEq, Eq, Structural)]
pub enum OracleError {
    InvalidResultSlot,
    InvalidDate,
    InvalidComparator,
    InvalidKind,
    SourceUnavailable,
    SourceMalformed,
    PriceNotFound,
    OutOfRange,
    Overflow,
    CalendarUnderflow,
    ClockError,
}

} // verus!
