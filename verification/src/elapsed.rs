//! Spans of time, and points in time told as the span since the program started.

use vstd::prelude::*;

use crate::number::{decimal, repeated};
use crate::order::Ordered;
use crate::outside::{format_seconds, seconds_text};

verus! {

/// A span of time.
#[derive(Debug, Clone, Copy, PartialEq, Eq, Structural)]
pub struct Elapsed {
    pub secs: u64,
    /// The part of a second, in nanoseconds; less than a whole one.
    pub nanos: u32,
}

/// Nanoseconds in a second.
pub const NANOS_PER_SEC: u32 = 1_000_000_000;

impl Elapsed {
    /// The part of a second is less than a whole one.
    pub open spec fn wf(self) -> bool {
        self.nanos < NANOS_PER_SEC
    }

    /// The span in nanoseconds.
    pub open spec fn total_nanos(self) -> int {
        self.secs * NANOS_PER_SEC + self.nanos
    }

    /// No time at all.
    pub fn zero() -> (span: Elapsed)
        ensures
            span.wf(),
            span.total_nanos() == 0,
            span == (Elapsed { secs: 0, nanos: 0 }),
    {
        Elapsed { secs: 0, nanos: 0 }
    }

    /// The time from `start` to `self`; none where `start` lies later.
    pub fn since(self, start: Elapsed) -> (span: Elapsed)
        requires
            self.wf(),
            start.wf(),
        ensures
            span.wf(),
            span.total_nanos() == (if self.total_nanos() >= start.total_nanos() {
                self.total_nanos() - start.total_nanos()
            } else {
                0
            }),
    {
        if self.secs < start.secs || self.secs == start.secs && self.nanos < start.nanos {
            return Elapsed::zero();
        }
        if self.nanos >= start.nanos {
            Elapsed { secs: self.secs - start.secs, nanos: self.nanos - start.nanos }
        } else {
            Elapsed {
                secs: self.secs - start.secs - 1,
                nanos: NANOS_PER_SEC - start.nanos + self.nanos,
            }
        }
    }

    /// The span in seconds with one digit behind the point.
    pub fn tenths(self) -> (text: String)
        requires
            self.wf(),
        ensures
            text@ == seconds_text(self.secs, self.nanos, 1),
            self.nanos == 0 && self.secs <= 0x20_0000_0000_0000 ==> text@ == decimal(
                self.secs as nat,
            ) + "."@ + repeated('0', 1),
    {
        format_seconds(self.secs, self.nanos, 1)
    }

    /// The span in seconds with two digits behind the point.
    pub fn hundredths(self) -> (text: String)
        requires
            self.wf(),
        ensures
            text@ == seconds_text(self.secs, self.nanos, 2),
            self.nanos == 0 && self.secs <= 0x20_0000_0000_0000 ==> text@ == decimal(
                self.secs as nat,
            ) + "."@ + repeated('0', 2),
    {
        format_seconds(self.secs, self.nanos, 2)
    }
}

/// `a` lasts longer than `b`.
pub open spec fn longer(a: Elapsed, b: Elapsed) -> bool {
    a.secs > b.secs || a.secs == b.secs && a.nanos > b.nanos
}

/// Longer spans first.
impl Ordered for Elapsed {
    open spec fn before(&self, other: &Self) -> bool {
        longer(*self, *other)
    }

    proof fn order_law(a: &Self, b: &Self, c: &Self) {
    }

    proof fn strict_law(a: &Self, b: &Self) {
    }

    fn is_before(&self, other: &Self) -> (less: bool) {
        self.secs > other.secs || self.secs == other.secs && self.nanos > other.nanos
    }
}

/// A span is its seconds and its part of a second, of which a second has a thousand million.
pub proof fn law_span_in_nanoseconds(span: Elapsed)
    ensures
        span.total_nanos() == span.secs * 1_000_000_000 + span.nanos,
        span.wf() <==> span.nanos < 1_000_000_000,
{
}

/// What lasts longer is the longer span of nanoseconds.
pub proof fn law_longer_spans(a: Elapsed, b: Elapsed)
    requires
        a.wf(),
        b.wf(),
    ensures
        longer(a, b) <==> a.total_nanos() > b.total_nanos(),
{
}

} // verus!
