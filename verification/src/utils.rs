//! Time values and their conversion into the store's value space.

use vstd::prelude::*;
use crate::model::ValueModel;
use crate::store::TypedValue;

verus! {

/// A point in time: whole seconds since the epoch, and a sub-second
/// nanosecond component in `[0, 1_000_000_000)`.
#[derive(Clone, Copy, PartialEq, Eq, Structural, Debug)]
pub struct Timespec {
    pub sec: i64,
    pub nsec: i32,
}

impl Timespec {
    pub fn new(sec: i64, nsec: i32) -> (t: Timespec)
        ensures
            t.sec == sec,
            t.nsec == nsec,
    {
        Timespec { sec, nsec }
    }
}

/// The microsecond rendering of a second/nanosecond pair.
pub open spec fn micros_of(sec: int, nsec: int) -> int {
    sec * 1_000_000 + nsec / 1_000
}

/// Conversion of a time value into the store's typed value space, at
/// microsecond resolution.
pub trait ToTypedValue {
    /// Whether the value converts without leaving the instant range.
    spec fn to_typed_value_ok(&self) -> bool;

    fn to_typed_value(&self) -> (v: TypedValue)
        requires
            self.to_typed_value_ok(),
    ;
}

impl ToTypedValue for Timespec {
    open spec fn to_typed_value_ok(&self) -> bool {
        &&& -9_223_372_036_854 <= self.sec <= 9_223_372_036_854
        &&& 0 <= self.nsec < 1_000_000_000
        &&& i64::MIN <= micros_of(self.sec as int, self.nsec as int) <= i64::MAX
    }

    fn to_typed_value(&self) -> (v: TypedValue)
        ensures
            v@ == ValueModel::Instant(micros_of(self.sec as int, self.nsec as int)),
    {
        let micro_seconds = (self.sec * 1_000_000) + (self.nsec / 1_000) as i64;
        TypedValue::instant(micro_seconds)
    }
}

} // verus!
