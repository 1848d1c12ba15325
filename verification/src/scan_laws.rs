//! How the passes over a document agree: the time of a track point that
//! the filter goes by, and the time of a sample, is a time that the clock
//! has read, so none of them lies before the earliest time of the
//! document.

use crate::event::{time_name, trkpt_name, trkseg_name, EventView};
use crate::filter::kept_events;
use crate::filter_laws::uniform_run;
use crate::instant::{Instant, TimeWindow};
use crate::point_laws::{
    lemma_output_holds_the_points_in_the_window, points_of, points_within, PointView,
};
use crate::scan::{
    clock_reading, clock_run, earlier_of, earliest_of, extract_run, is_earliest,
    lemma_earlier_of_keeps_minimum, lemma_earliest_is_unique, minimum_time, point_times,
    samples_of,
};
use vstd::prelude::*;

verus! {

/// A time that has been read stays read when the document goes on.
proof fn lemma_point_times_grow(events: Seq<EventView>, t: Instant)
    requires
        events.len() > 0,
        point_times(events.drop_last()).contains(t),
    ensures
        point_times(events).contains(t),
{
    let before = point_times(events.drop_last());
    let i = choose|i: int| 0 <= i < before.len() && before[i] == t;
    match clock_reading(clock_run(events.drop_last()), events.last()) {
        Some(read) => {
            assert(before.push(read)[i] == t);
        },
        None => {},
    }
}

/// A time that the last event completes has been read.
proof fn lemma_reading_is_read(events: Seq<EventView>)
    requires
        events.len() > 0,
    ensures
        clock_reading(clock_run(events.drop_last()), events.last()) matches Some(t)
            ==> point_times(events).contains(t),
{
    let before = point_times(events.drop_last());
    match clock_reading(clock_run(events.drop_last()), events.last()) {
        Some(read) => {
            assert(before.push(read)[before.len() as int] == read);
        },
        None => {},
    }
}

/// The filter and the clock are inside a point at the same events, gather
/// the same text of an open `<time>`, and the time that the filter has for
/// a point is one that the clock has read.
proof fn lemma_filter_follows_the_clock(events: Seq<EventView>)
    ensures
        uniform_run(events, true).state.inside_point == clock_run(events).inside_point,
        uniform_run(events, true).state.pending_time matches Some(text) ==> {
            &&& clock_run(events).inside_time
            &&& clock_run(events).time_text == text
        },
        uniform_run(events, true).state.point_time matches Some(t) ==> point_times(
            events,
        ).contains(t),
    decreases events.len(),
{
    assert(trkseg_name().len() != trkpt_name().len());
    assert(time_name().len() != trkpt_name().len());
    assert(time_name().len() != trkseg_name().len());
    if events.len() > 0 {
        lemma_filter_follows_the_clock(events.drop_last());
        lemma_reading_is_read(events);
        let before = uniform_run(events.drop_last(), true).state;
        let after = uniform_run(events, true).state;
        match after.point_time {
            Some(t) => {
                if before.point_time == Some(t) {
                    lemma_point_times_grow(events, t);
                }
            },
            None => {},
        }
    }
}

/// The time of a track point is a time that the clock has read.
proof fn lemma_point_time_is_read(events: Seq<EventView>, i: int)
    requires
        0 <= i < points_of(events).len(),
    ensures
        points_of(events)[i].time matches Some(t) ==> point_times(events).contains(t),
    decreases events.len(),
{
    if events.len() > 0 {
        let shorter = events.drop_last();
        lemma_filter_follows_the_clock(shorter);
        if i < points_of(shorter).len() {
            lemma_point_time_is_read(shorter, i);
            assert(points_of(events)[i] == points_of(shorter)[i]);
            match points_of(events)[i].time {
                Some(t) => {
                    lemma_point_times_grow(events, t);
                },
                None => {},
            }
        } else {
            match points_of(events)[i].time {
                Some(t) => {
                    lemma_point_times_grow(events, t);
                },
                None => {},
            }
        }
    }
}

/// The time that the extractor has for the current point, and the time of
/// each sample, is a time that the clock has read.
proof fn lemma_sample_times_are_read(events: Seq<EventView>)
    ensures
        extract_run(events).time matches Some(t) ==> point_times(events).contains(t),
        forall|i: int|
            0 <= i < samples_of(events).len() ==> point_times(events).contains(
                (#[trigger] samples_of(events)[i]).time,
            ),
    decreases events.len(),
{
    if events.len() > 0 {
        let shorter = events.drop_last();
        lemma_sample_times_are_read(shorter);
        lemma_reading_is_read(events);
        let before = extract_run(shorter);
        let after = extract_run(events);
        match after.time {
            Some(t) => {
                if before.time == Some(t) {
                    lemma_point_times_grow(events, t);
                }
            },
            None => {},
        }
        assert forall|i: int| 0 <= i < samples_of(events).len() implies point_times(
            events,
        ).contains((#[trigger] samples_of(events)[i]).time) by {
            if i < before.points.len() {
                assert(samples_of(events)[i] == samples_of(shorter)[i]);
                lemma_point_times_grow(events, samples_of(shorter)[i].time);
            } else {
                assert(samples_of(events)[i].time == before.time->0);
                lemma_point_times_grow(events, before.time->0);
            }
        }
    }
}

/// Times that are not none have a minimum.
pub proof fn lemma_earliest_exists(times: Seq<Instant>)
    ensures
        is_earliest(times, earliest_of(times)),
    decreases times.len(),
{
    if times.len() > 0 {
        let shorter = times.drop_last();
        lemma_earliest_exists(shorter);
        lemma_earlier_of_keeps_minimum(shorter, earliest_of(shorter), Some(times.last()));
        assert(shorter.push(times.last()) =~= times);
        let found = earlier_of(earliest_of(shorter), Some(times.last()));
        lemma_earliest_is_unique(times, found);
    }
}

/// A time that the clock has read does not lie before the earliest time
/// of the document.
proof fn lemma_minimum_is_not_after(events: Seq<EventView>, t: Instant)
    requires
        point_times(events).contains(t),
    ensures
        minimum_time(events) matches Some(m) && m.nanos <= t.nanos,
{
    let times = point_times(events);
    lemma_earliest_exists(times);
    let i = choose|i: int| 0 <= i < times.len() && times[i] == t;
    assert(times[i] == t);
}

/// No track point has a time before the earliest time of the document: the
/// time that the filter goes by for a point is one of the times among which
/// the minimum is sought.
pub proof fn lemma_no_point_before_the_minimum(events: Seq<EventView>, i: int)
    requires
        0 <= i < points_of(events).len(),
        points_of(events)[i].time is Some,
    ensures
        minimum_time(events) matches Some(m) && m.nanos <= points_of(events)[i].time->0.nanos,
{
    lemma_point_time_is_read(events, i);
    lemma_minimum_is_not_after(events, points_of(events)[i].time->0);
}

/// No sample has a time before the earliest time of the document.
pub proof fn lemma_no_sample_before_the_minimum(events: Seq<EventView>, i: int)
    requires
        0 <= i < samples_of(events).len(),
    ensures
        minimum_time(events) matches Some(m) && m.nanos <= samples_of(events)[i].time.nanos,
{
    lemma_sample_times_are_read(events);
    lemma_minimum_is_not_after(events, samples_of(events)[i].time);
}

/// A point among those that lie in a window is a point, and its time lies
/// in the window.
proof fn lemma_point_within_is_a_point(points: Seq<PointView>, window: TimeWindow, i: int)
    requires
        0 <= i < points_within(points, window).len(),
    ensures
        exists|j: int| 0 <= j < points.len() && points[j] == points_within(points, window)[i],
        window.keeps(points_within(points, window)[i].time),
    decreases points.len(),
{
    if points.len() > 0 {
        let shorter = points.drop_last();
        if i < points_within(shorter, window).len() {
            lemma_point_within_is_a_point(shorter, window, i);
            let j = choose|j: int|
                0 <= j < shorter.len() && shorter[j] == points_within(shorter, window)[i];
            assert(points[j] == points_within(points, window)[i]);
        } else {
            assert(points[points.len() - 1] == points_within(points, window)[i]);
        }
    }
}

/// Every point that the filter writes has a time, the time lies in the
/// window, and it does not lie before the earliest time of the document
/// that the filter read.
pub proof fn lemma_kept_points_are_timed(events: Seq<EventView>, window: TimeWindow, i: int)
    requires
        0 <= i < points_of(kept_events(events, window)).len(),
    ensures
        ({
            &&& points_of(kept_events(events, window))[i].time matches Some(t)
            &&& window.admits(t)
            &&& minimum_time(events) matches Some(m)
            &&& m.nanos <= t.nanos
        }),
{
    lemma_output_holds_the_points_in_the_window(events, window);
    let points = points_of(events);
    lemma_point_within_is_a_point(points, window, i);
    let j = choose|j: int|
        0 <= j < points.len() && points[j] == points_within(points, window)[i];
    lemma_no_point_before_the_minimum(events, j);
}

} // verus!
