//! Finding the part of a track in which something moved.
//!
//! Between each two samples in a row the track either moved (the speed
//! reached the threshold) or stood still. A single fast step is taken for
//! noise: only three moving steps in a row count as activity.

use crate::instant::{Instant, NANOS_PER_SECOND};
use crate::scan::{track_points_view, TrackPoint, TrackPointView};
use vstd::prelude::*;

verus! {

/// How many moving steps in a row it takes to trust that the track moves.
pub const CONFIRMATION_LENGTH: usize = 3;

/// Why no activity window could be given.
#[derive(Clone, Copy, Debug, PartialEq, Eq, Structural)]
pub enum DetectError {
    /// There are fewer than two samples, so no speed is known.
    TooFewPoints,
    /// The number of steps is not one less than the number of samples.
    StepCountMismatch,
    /// A bound of the window lies beyond what an instant can hold.
    OutOfRange,
}

impl DetectError {
    /// What went wrong, in words.
    pub open spec fn words(self) -> Seq<char> {
        match self {
            DetectError::TooFewPoints => "Need at least 2 track points for activity detection"@,
            DetectError::StepCountMismatch => "Need one step for each pair of track points"@,
            DetectError::OutOfRange => "Activity window is out of range"@,
        }
    }

    /// What went wrong, in words.
    pub fn message(&self) -> (text: &'static str)
        ensures
            text@ == self.words(),
    {
        match self {
            DetectError::TooFewPoints => "Need at least 2 track points for activity detection",
            DetectError::StepCountMismatch => "Need one step for each pair of track points",
            DetectError::OutOfRange => "Activity window is out of range",
        }
    }
}

/// Whether three moving steps in a row start at the step `at`.
pub open spec fn has_run_at(active: Seq<bool>, at: int) -> bool {
    &&& 0 <= at
    &&& at + CONFIRMATION_LENGTH <= active.len()
    &&& active[at]
    &&& active[at + 1]
    &&& active[at + 2]
}

/// Whether the track has three moving steps in a row anywhere.
pub open spec fn has_run(active: Seq<bool>) -> bool {
    exists|at: int| has_run_at(active, at)
}

/// Whether `at` is the first step at which three moving steps in a row
/// start.
pub open spec fn is_first_run(active: Seq<bool>, at: int) -> bool {
    &&& has_run_at(active, at)
    &&& forall|other: int| has_run_at(active, other) ==> at <= other
}

/// Whether `at` is the last step at which three moving steps in a row
/// start.
pub open spec fn is_last_run(active: Seq<bool>, at: int) -> bool {
    &&& has_run_at(active, at)
    &&& forall|other: int| has_run_at(active, other) ==> other <= at
}

/// The sample at which activity starts: the one that the first of the
/// first three moving steps in a row leads to, or the first sample if the
/// track never moves so long. The step `k` leads from the sample `k` to the
/// sample `k + 1`.
pub open spec fn activity_start(active: Seq<bool>) -> int {
    if has_run(active) {
        (choose|at: int| is_first_run(active, at)) + 1
    } else {
        0
    }
}

/// The sample at which activity ends: the one that the last of the last
/// three moving steps in a row leads to, or the last sample if the track
/// never moves so long.
pub open spec fn activity_end(active: Seq<bool>) -> int {
    if has_run(active) {
        (choose|at: int| is_last_run(active, at)) + CONFIRMATION_LENGTH
    } else {
        active.len() as int
    }
}

/// The start of the activity window in nanoseconds: the time of the sample
/// at which activity starts, less the buffer.
pub open spec fn window_start(times: Seq<Instant>, active: Seq<bool>, buffer_seconds: u64) -> int {
    times[activity_start(active)].nanos - buffer_seconds * NANOS_PER_SECOND
}

/// The end of the activity window in nanoseconds: the time of the sample
/// at which activity ends, plus the buffer.
pub open spec fn window_end(times: Seq<Instant>, active: Seq<bool>, buffer_seconds: u64) -> int {
    times[activity_end(active)].nanos + buffer_seconds * NANOS_PER_SECOND
}

/// The times of a sequence of samples.
pub open spec fn times_of(points: Seq<TrackPointView>) -> Seq<Instant> {
    Seq::new(points.len(), |i: int| points[i].time)
}

/// Whether `nanos` can be held by an instant.
pub open spec fn fits_instant(nanos: int) -> bool {
    i128::MIN <= nanos <= i128::MAX
}

/// A track has one first run and no other: if three moving steps in a row
/// start at `at` and no such run starts before, activity starts at the
/// sample after `at`.
pub proof fn lemma_first_run_is_unique(active: Seq<bool>, at: int)
    requires
        is_first_run(active, at),
    ensures
        has_run(active),
        activity_start(active) == at + 1,
{
    let chosen = choose|other: int| is_first_run(active, other);
    assert(is_first_run(active, chosen));
    assert(has_run_at(active, at));
    assert(has_run_at(active, chosen));
}

/// A track has one last run and no other: if three moving steps in a row
/// start at `at` and no such run starts after, activity ends at the sample
/// that the last of them leads to.
pub proof fn lemma_last_run_is_unique(active: Seq<bool>, at: int)
    requires
        is_last_run(active, at),
    ensures
        has_run(active),
        activity_end(active) == at + CONFIRMATION_LENGTH,
{
    let chosen = choose|other: int| is_last_run(active, other);
    assert(is_last_run(active, chosen));
    assert(has_run_at(active, at));
    assert(has_run_at(active, chosen));
}

/// The sample at which activity starts.
///
/// Counts the moving steps in a row from the front; the first time the
/// count reaches three, the run is confirmed.
pub fn find_activity_start(active: &[bool]) -> (start: usize)
    ensures
        start == activity_start(active@),
        start <= active.len(),
{
    let mut found: Option<usize> = None;
    let mut row: usize = 0;
    let mut k: usize = 0;
    while k < active.len()
        invariant
            k <= active.len(),
            row <= k,
            forall|i: int| k - row <= i < k ==> active@[i],
            row < k ==> !active@[k - row - 1],
            match found {
                Some(start) => 1 <= start <= active.len() && is_first_run(active@, start - 1),
                None => row < CONFIRMATION_LENGTH && forall|at: int|
                    has_run_at(active@, at) ==> at + CONFIRMATION_LENGTH > k,
            },
        decreases active.len() - k,
    {
        if active[k] {
            row += 1;
            if row >= CONFIRMATION_LENGTH && found.is_none() {
                assert(has_run_at(active@, k - 2));
                assert forall|other: int| has_run_at(active@, other) implies k - 2 <= other by {
                    if other < k - 2 {
                        assert(other + CONFIRMATION_LENGTH > k - 0);
                    }
                }
                found = Some(k + 1 - row + 1);
            }
        } else {
            row = 0;
        }
        k += 1;
    }
    match found {
        Some(start) => {
            proof {
                lemma_first_run_is_unique(active@, start - 1);
            }
            start
        },
        None => {
            assert(!has_run(active@));
            0
        },
    }
}

/// The sample at which activity ends.
///
/// Counts the moving steps in a row from the back; the first time the
/// count reaches three, the run is confirmed, and the sample that its last
/// step leads to is the end.
pub fn find_activity_end(active: &[bool]) -> (end: usize)
    ensures
        end == activity_end(active@),
        end <= active.len(),
{
    let mut found: Option<usize> = None;
    let mut row: usize = 0;
    let mut k: usize = active.len();
    while k > 0
        invariant
            k <= active.len(),
            row <= active.len() - k,
            forall|i: int| k <= i < k + row ==> active@[i],
            k + row < active.len() ==> !active@[k + row],
            match found {
                Some(end) => CONFIRMATION_LENGTH <= end <= active.len() && is_last_run(
                    active@,
                    end - CONFIRMATION_LENGTH,
                ),
                None => row < CONFIRMATION_LENGTH && forall|at: int|
                    has_run_at(active@, at) ==> at < k,
            },
        decreases k,
    {
        k -= 1;
        if active[k] {
            row += 1;
            if row >= CONFIRMATION_LENGTH && found.is_none() {
                assert(has_run_at(active@, k as int));
                found = Some(k + CONFIRMATION_LENGTH);
            }
        } else {
            row = 0;
        }
    }
    match found {
        Some(end) => {
            proof {
                lemma_last_run_is_unique(active@, end - CONFIRMATION_LENGTH);
            }
            end
        },
        None => {
            assert(!has_run(active@));
            active.len()
        },
    }
}

/// The window of time in which a track was active.
///
/// `active` holds one entry for each pair of samples in a row: whether the
/// speed between them reached the threshold. The window starts `buffer_seconds`
/// before the sample at which activity starts and ends `buffer_seconds`
/// after the sample at which it ends. A track that never moves for three
/// steps in a row is active from its first sample to its last.
///
/// Fails with `TooFewPoints` for fewer than two samples, with
/// `StepCountMismatch` if there is not one step for each pair, and with
/// `OutOfRange` if a bound of the window cannot be held by an instant.
pub fn detect_activity_bounds(
    track_points: &[TrackPoint],
    active: &[bool],
    buffer_seconds: u64,
) -> (r: Result<(Instant, Instant), DetectError>)
    ensures
        match r {
            Ok((start, end)) => {
                &&& track_points.len() >= 2
                &&& active.len() == track_points.len() - 1
                &&& start.nanos == window_start(
                    times_of(track_points_view(track_points@)),
                    active@,
                    buffer_seconds,
                )
                &&& end.nanos == window_end(
                    times_of(track_points_view(track_points@)),
                    active@,
                    buffer_seconds,
                )
            },
            Err(DetectError::TooFewPoints) => track_points.len() < 2,
            Err(DetectError::StepCountMismatch) => {
                &&& track_points.len() >= 2
                &&& active.len() != track_points.len() - 1
            },
            Err(DetectError::OutOfRange) => {
                &&& track_points.len() >= 2
                &&& active.len() == track_points.len() - 1
                &&& !(fits_instant(
                    window_start(
                        times_of(track_points_view(track_points@)),
                        active@,
                        buffer_seconds,
                    ),
                ) && fits_instant(
                    window_end(
                        times_of(track_points_view(track_points@)),
                        active@,
                        buffer_seconds,
                    ),
                ))
            },
        },
{
    if track_points.len() < 2 {
        return Err(DetectError::TooFewPoints);
    }
    if active.len() != track_points.len() - 1 {
        return Err(DetectError::StepCountMismatch);
    }
    let start_index = find_activity_start(active);
    let end_index = find_activity_end(active);
    let seconds: i128 = buffer_seconds as i128;
    assert(0 <= seconds * 1_000_000_000 <= 0xffff_ffff_ffff_ffff * 1_000_000_000)
        by (nonlinear_arith)
        requires
            0 <= seconds <= 0xffff_ffff_ffff_ffff,
    ;
    let buffer: i128 = seconds * NANOS_PER_SECOND;
    let first = track_points[start_index].time.nanos;
    let last = track_points[end_index].time.nanos;
    match (first.checked_sub(buffer), last.checked_add(buffer)) {
        (Some(start), Some(end)) => Ok((Instant { nanos: start }, Instant { nanos: end })),
        _ => Err(DetectError::OutOfRange),
    }
}

/// Fewer than three moving steps in a row never move a bound: without such
/// a run the window spans the whole track, from the first sample less the
/// buffer to the last sample plus the buffer.
pub proof fn lemma_no_run_spans_the_track(
    times: Seq<Instant>,
    active: Seq<bool>,
    buffer_seconds: u64,
)
    requires
        !has_run(active),
        times.len() == active.len() + 1,
    ensures
        window_start(times, active, buffer_seconds) == times.first().nanos - buffer_seconds
            * NANOS_PER_SECOND,
        window_end(times, active, buffer_seconds) == times.last().nanos + buffer_seconds
            * NANOS_PER_SECOND,
{
}

/// A bound moves only where the track moves for three steps in a row: if
/// activity does not start at the first sample, or does not end at the
/// last, then three steps in a row are moving somewhere.
pub proof fn lemma_moved_bound_needs_a_run(active: Seq<bool>)
    ensures
        activity_start(active) != 0 ==> has_run(active),
        activity_end(active) != active.len() ==> has_run(active),
{
}

/// The buffer widens the window by its length on both sides and does
/// nothing else.
pub proof fn lemma_buffer_is_symmetric(times: Seq<Instant>, active: Seq<bool>, buffer_seconds: u64)
    ensures
        window_start(times, active, buffer_seconds) == window_start(times, active, 0)
            - buffer_seconds * NANOS_PER_SECOND,
        window_end(times, active, buffer_seconds) == window_end(times, active, 0) + buffer_seconds
            * NANOS_PER_SECOND,
{
}

/// Activity starts and ends at samples of the track, and does not end
/// before it starts.
pub proof fn lemma_activity_lies_in_the_track(active: Seq<bool>)
    ensures
        0 <= activity_start(active) <= activity_end(active) <= active.len(),
{
    if has_run(active) {
        let witness = choose|at: int| has_run_at(active, at);
        lemma_first_run_from(active, witness, witness);
        lemma_last_run_from(active, witness, witness);
        let first = choose|at: int| is_first_run(active, at);
        let last = choose|at: int| is_last_run(active, at);
        assert(is_first_run(active, first));
        assert(is_last_run(active, last));
    }
}

/// If a run starts at `candidate` and no run starts between `checked` and
/// `candidate`, then a first run exists.
proof fn lemma_first_run_from(active: Seq<bool>, candidate: int, checked: int)
    requires
        has_run_at(active, candidate),
        0 <= checked <= candidate,
        forall|other: int| checked <= other < candidate ==> !has_run_at(active, other),
    ensures
        exists|at: int| is_first_run(active, at),
    decreases checked,
{
    if checked == 0 {
        assert(is_first_run(active, candidate));
    } else if has_run_at(active, checked - 1) {
        lemma_first_run_from(active, checked - 1, checked - 1);
    } else {
        lemma_first_run_from(active, candidate, checked - 1);
    }
}

/// If a run starts at `candidate` and no run starts between `candidate` and
/// `checked`, then a last run exists.
proof fn lemma_last_run_from(active: Seq<bool>, candidate: int, checked: int)
    requires
        has_run_at(active, candidate),
        candidate <= checked,
        forall|other: int| candidate < other <= checked ==> !has_run_at(active, other),
    ensures
        exists|at: int| is_last_run(active, at),
    decreases active.len() - checked,
{
    if checked >= active.len() {
        assert(is_last_run(active, candidate));
    } else if has_run_at(active, checked + 1) {
        lemma_last_run_from(active, checked + 1, checked + 1);
    } else {
        lemma_last_run_from(active, candidate, checked + 1);
    }
}

} // verus!
