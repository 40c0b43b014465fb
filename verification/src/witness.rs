//! Marks of where a value comes from.
//!
//! Any bytes can be drawn and the clock can show any time, so nothing in a value
//! tells where it comes from, and as statements about values the marks below are
//! empty: each holds of every value. What a contract gains by one rests on this
//! module alone, which keeps the definitions to itself and proves neither mark of
//! anything. Elsewhere a mark can only be had from a call that draws, or reads
//! the clock, and a function that promises one has to make that call.

use vstd::prelude::*;

verus! {

/// What a draw of the random generator can give.
pub struct Draw {
    bytes: Seq<u8>,
}

/// What a reading of the clock can give.
pub struct Reading {
    millis: i64,
}

/// The mark of `bytes` that the random generator wrote. By itself it holds of all
/// bytes.
pub closed spec fn is_drawn(bytes: Seq<u8>) -> bool {
    exists|draw: Draw| #[trigger] draw.bytes == bytes
}

/// The mark of a time that the clock showed. By itself it holds of every number.
pub closed spec fn is_read(millis: i64) -> bool {
    exists|reading: Reading| #[trigger] reading.millis == millis
}

} // verus!
