//! Instants, durations and time windows.

use ::time::format_description::well_known::Iso8601;
use ::time::OffsetDateTime;
use vstd::prelude::*;
use vstd::string::StringSliceAdditionalSpecFns;

verus! {

/// Nanoseconds in a second.
pub const NANOS_PER_SECOND: i128 = 1_000_000_000;

/// A point on the time line, as nanoseconds since the Unix epoch.
///
/// Two instants are the same moment exactly when their counts are equal, and
/// one is earlier than the other exactly when its count is smaller, whatever
/// the offset from UTC they were written with.
#[derive(Clone, Copy, Debug, PartialEq, Eq, Structural)]
pub struct Instant {
    /// Nanoseconds since 1970-01-01T00:00:00Z; negative before it.
    pub nanos: i128,
}

/// A signed length of time in whole seconds.
#[derive(Clone, Copy, Debug, PartialEq, Eq, Structural)]
pub struct Duration {
    /// The length in seconds; negative for a step back in time.
    pub secs: i64,
}

impl Duration {
    /// The length of this duration in nanoseconds.
    pub open spec fn nanos(self) -> int {
        self.secs * NANOS_PER_SECOND
    }

    /// A duration of `n` seconds.
    pub fn seconds(n: i64) -> (d: Duration)
        ensures
            d.secs == n,
    {
        Duration { secs: n }
    }

    /// A duration of `n` minutes.
    pub fn minutes(n: i64) -> (d: Duration)
        requires
            i64::MIN <= n * 60 <= i64::MAX,
        ensures
            d.secs == n * 60,
    {
        Duration { secs: n * 60 }
    }

    /// A duration of `n` hours.
    pub fn hours(n: i64) -> (d: Duration)
        requires
            i64::MIN <= n * 3600 <= i64::MAX,
        ensures
            d.secs == n * 3600,
    {
        Duration { secs: n * 3600 }
    }

    /// The sum of two durations, unless it leaves the range of whole seconds
    /// that a duration can hold.
    pub fn checked_add(self, other: Duration) -> (r: Option<Duration>)
        ensures
            match r {
                Some(d) => d.secs == self.secs + other.secs,
                None => !(i64::MIN <= self.secs + other.secs <= i64::MAX),
            },
    {
        match self.secs.checked_add(other.secs) {
            Some(secs) => Some(Duration { secs }),
            None => None,
        }
    }
}

impl Instant {
    /// Whether this instant moved by `nanos` nanoseconds can still be held.
    pub open spec fn can_shift(self, nanos: int) -> bool {
        i128::MIN <= self.nanos + nanos <= i128::MAX
    }

    /// This instant moved later by `d` (earlier where `d` is negative), unless
    /// the result cannot be held.
    pub fn checked_add(self, d: Duration) -> (r: Option<Instant>)
        ensures
            match r {
                Some(t) => t.nanos == self.nanos + d.nanos(),
                None => !self.can_shift(d.nanos()),
            },
    {
        let secs: i128 = d.secs as i128;
        assert(-0x8000_0000_0000_0000 * 1_000_000_000 <= secs * 1_000_000_000
            <= 0x8000_0000_0000_0000 * 1_000_000_000) by (nonlinear_arith)
            requires
                -0x8000_0000_0000_0000 <= secs <= 0x8000_0000_0000_0000,
        ;
        let shift: i128 = secs * NANOS_PER_SECOND;
        match self.nanos.checked_add(shift) {
            Some(nanos) => Some(Instant { nanos }),
            None => None,
        }
    }

    /// This instant moved earlier by `d` (later where `d` is negative),
    /// unless the result cannot be held.
    pub fn checked_sub(self, d: Duration) -> (r: Option<Instant>)
        ensures
            match r {
                Some(t) => t.nanos == self.nanos - d.nanos(),
                None => !self.can_shift(-d.nanos()),
            },
    {
        let secs: i128 = d.secs as i128;
        assert(-0x8000_0000_0000_0000 * 1_000_000_000 <= secs * 1_000_000_000
            <= 0x8000_0000_0000_0000 * 1_000_000_000) by (nonlinear_arith)
            requires
                -0x8000_0000_0000_0000 <= secs <= 0x8000_0000_0000_0000,
        ;
        let shift: i128 = secs * NANOS_PER_SECOND;
        match self.nanos.checked_sub(shift) {
            Some(nanos) => Some(Instant { nanos }),
            None => None,
        }
    }
}

/// The instant that the `time` crate reads from a text as an ISO 8601 date,
/// time and offset; `None` where the bytes are no UTF-8 text or the crate
/// rejects the text.
pub uninterp spec fn iso8601_instant(text: Seq<u8>) -> Option<Instant>;

/// `OffsetDateTime::parse` with `Iso8601::DEFAULT`, and
/// `OffsetDateTime::unix_timestamp_nanos` on what it accepts.
#[verifier::external_body]
pub(crate) fn parse_iso8601(text: &[u8]) -> (r: Option<Instant>)
    ensures
        r == iso8601_instant(text@),
{
    let text = std::str::from_utf8(text).ok()?;
    let parsed = OffsetDateTime::parse(text, &Iso8601::DEFAULT).ok()?;
    Some(Instant { nanos: parsed.unix_timestamp_nanos() })
}

/// The instant written in `text` as an ISO 8601 date, time and offset, such
/// as `2023-01-01T10:00:00Z`.
pub fn parse_instant(text: &str) -> (r: Option<Instant>)
    ensures
        r == iso8601_instant(text.spec_bytes()),
{
    parse_iso8601(text.as_bytes())
}

/// The set of instants that survive a trim.
#[derive(Clone, Copy, Debug, PartialEq, Eq, Structural)]
pub enum TimeWindow {
    /// Every instant from `start` on and before `end`: `start` belongs to the
    /// window, `end` does not.
    Range { start: Instant, end: Instant },
    /// Every instant up to and including `threshold`.
    Until { threshold: Instant },
}

impl TimeWindow {
    /// Whether the instant `t` lies in the window.
    pub open spec fn admits(self, t: Instant) -> bool {
        match self {
            TimeWindow::Range { start, end } => start.nanos <= t.nanos < end.nanos,
            TimeWindow::Until { threshold } => t.nanos <= threshold.nanos,
        }
    }

    /// Whether a track point with the time `t` is kept: one without a time
    /// never is.
    pub open spec fn keeps(self, t: Option<Instant>) -> bool {
        match t {
            Some(t) => self.admits(t),
            None => false,
        }
    }

    /// The window given by a lower bound and an optional upper bound: with
    /// both, the half-open range between them; with the first alone,
    /// everything up to and including it.
    pub open spec fn of_thresholds(start: Instant, end: Option<Instant>) -> TimeWindow {
        match end {
            Some(end) => TimeWindow::Range { start, end },
            None => TimeWindow::Until { threshold: start },
        }
    }

    /// The window given by a lower bound and an optional upper bound.
    pub fn from_thresholds(start: Instant, end: Option<Instant>) -> (w: TimeWindow)
        ensures
            w == TimeWindow::of_thresholds(start, end),
    {
        match end {
            Some(end) => TimeWindow::Range { start, end },
            None => TimeWindow::Until { threshold: start },
        }
    }

    /// Whether the instant `t` lies in the window.
    pub fn contains(&self, t: Instant) -> (r: bool)
        ensures
            r == self.admits(t),
    {
        match self {
            TimeWindow::Range { start, end } => start.nanos <= t.nanos && t.nanos < end.nanos,
            TimeWindow::Until { threshold } => t.nanos <= threshold.nanos,
        }
    }

    /// Whether a track point with the time `t` is kept.
    pub fn retains(&self, t: Option<Instant>) -> (r: bool)
        ensures
            r == self.keeps(t),
    {
        match t {
            Some(t) => self.contains(t),
            None => false,
        }
    }
}

/// A two-sided window is half-open: where it is not empty, its start lies in
/// it and its end does not.
pub proof fn lemma_range_is_half_open(start: Instant, end: Instant)
    requires
        start.nanos < end.nanos,
    ensures
        (TimeWindow::Range { start, end }).admits(start),
        !(TimeWindow::Range { start, end }).admits(end),
{
}

/// A two-sided window never holds its own end, and holds its start exactly
/// when the start lies before the end.
pub proof fn lemma_range_bounds(start: Instant, end: Instant)
    ensures
        !(TimeWindow::Range { start, end }).admits(end),
        (TimeWindow::Range { start, end }).admits(start) <==> start.nanos < end.nanos,
{
}

/// A one-sided window is closed: its threshold lies in it.
pub proof fn lemma_until_is_inclusive(threshold: Instant)
    ensures
        (TimeWindow::Until { threshold }).admits(threshold),
{
}

/// The same instant can lie in a one-sided window and outside the two-sided
/// window that ends at it: a threshold is kept, an end is not.
pub proof fn lemma_threshold_kept_end_dropped(start: Instant, bound: Instant)
    ensures
        TimeWindow::of_thresholds(bound, None).admits(bound),
        !TimeWindow::of_thresholds(start, Some(bound)).admits(bound),
{
}

/// A pair of offsets from the earliest time of a track: what a range
/// argument says before the track is known.
#[derive(Clone, Copy, Debug, PartialEq, Eq, Structural)]
pub enum TrimRange {
    /// Offsets written as durations, such as `5s,10s`.
    Duration { start: Duration, end: Duration },
    /// Offsets written as clock readings, such as `00:05,01:30`.
    Timestamp { start: Duration, end: Duration },
}

impl TrimRange {
    /// The offset of the window's start.
    pub open spec fn start_offset(self) -> Duration {
        match self {
            TrimRange::Duration { start, .. } => start,
            TrimRange::Timestamp { start, .. } => start,
        }
    }

    /// The offset of the window's end.
    pub open spec fn end_offset(self) -> Duration {
        match self {
            TrimRange::Duration { end, .. } => end,
            TrimRange::Timestamp { end, .. } => end,
        }
    }

    /// The window that the offsets give from the instant `origin`: it starts
    /// at `origin` plus the first offset and ends before `origin` plus the
    /// second. `None` where either bound cannot be held by an instant.
    pub open spec fn window_at(self, origin: Instant) -> Option<TimeWindow> {
        if origin.can_shift(self.start_offset().nanos()) && origin.can_shift(
            self.end_offset().nanos(),
        ) {
            Some(
                TimeWindow::Range {
                    start: Instant {
                        nanos: (origin.nanos + self.start_offset().nanos()) as i128,
                    },
                    end: Instant { nanos: (origin.nanos + self.end_offset().nanos()) as i128 },
                },
            )
        } else {
            None
        }
    }

    /// The window that the offsets give from the instant `origin`.
    pub fn resolve(&self, origin: Instant) -> (r: Option<TimeWindow>)
        ensures
            r == self.window_at(origin),
    {
        let (first, second) = match self {
            TrimRange::Duration { start, end } => (*start, *end),
            TrimRange::Timestamp { start, end } => (*start, *end),
        };
        match origin.checked_add(first) {
            None => None,
            Some(start) => match origin.checked_add(second) {
                None => None,
                Some(end) => Some(TimeWindow::Range { start, end }),
            },
        }
    }
}

} // verus!
