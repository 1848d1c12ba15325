//! The points of a document, and what the filter does to them: the points
//! of the document that it writes are the points of the document that it
//! read whose time lies in the window, each as it was, and what it writes
//! stands in the order in which it was read.

use crate::event::{trkpt_name, trkseg_name, EventKind, EventView};
use crate::filter::{
    advance, filter_run, initial, is_tag, kept_events, step, time_reading, FilterView,
};
use crate::filter_laws::{
    holds_every_point, holds_no_point, is_empty_point, is_point_tag, is_segment_tag,
    lemma_nothing_to_trim, points_are_flat, run_from, uniform_run,
};
use crate::instant::{Instant, TimeWindow};
use vstd::prelude::*;

verus! {

/// One track point of a document: its events from `<trkpt>` to `</trkpt>`,
/// or its one tag `<trkpt/>`, and its time.
pub struct PointView {
    /// The events of the point, in order.
    pub events: Seq<EventView>,
    /// The time of the point, if it has one.
    pub time: Option<Instant>,
}

/// The points that `events` close when the filter runs on from `state`, in
/// order. Each `</trkpt>` closes one: what is held back of the point by
/// then, and the closing tag. Each `<trkpt/>` is one by itself, without a
/// time.
pub open spec fn points_from(state: FilterView, events: Seq<EventView>) -> Seq<PointView>
    decreases events.len(),
{
    if events.len() == 0 {
        Seq::empty()
    } else {
        let before = points_from(state, events.drop_last());
        let reached = run_from(state, events.drop_last(), true).state;
        if is_tag(events.last(), EventKind::End, trkpt_name()) {
            before.push(
                PointView {
                    events: reached.buffer.push(events.last()),
                    time: reached.point_time,
                },
            )
        } else if is_empty_point(events.last()) {
            before.push(PointView { events: seq![events.last()], time: None })
        } else {
            before
        }
    }
}

/// The points of a document, in order.
pub open spec fn points_of(events: Seq<EventView>) -> Seq<PointView> {
    points_from(initial(), events)
}

/// Those of `points` whose time lies in the window, in order.
pub open spec fn points_within(points: Seq<PointView>, window: TimeWindow) -> Seq<PointView>
    decreases points.len(),
{
    if points.len() == 0 {
        Seq::empty()
    } else {
        let before = points_within(points.drop_last(), window);
        if window.keeps(points.last().time) {
            before.push(points.last())
        } else {
            before
        }
    }
}

/// Whether two states agree on the current point: on whether there is one,
/// on what is held back of it, and on its time.
pub open spec fn same_point(a: FilterView, b: FilterView) -> bool {
    &&& a.inside_point == b.inside_point
    &&& a.buffer == b.buffer
    &&& a.pending_time == b.pending_time
    &&& a.point_time == b.point_time
}

/// Whether `buffer` is what is held back of an open point: a `<trkpt>`, and
/// after it no tag of a point or a segment.
pub open spec fn is_open_point(buffer: Seq<EventView>) -> bool {
    &&& buffer.len() > 0
    &&& is_tag(buffer[0], EventKind::Start, trkpt_name())
    &&& forall|i: int|
        1 <= i < buffer.len() ==> !is_point_tag(#[trigger] buffer[i]) && !is_segment_tag(
            buffer[i],
        )
}

/// States that agree on the current point still agree on it after the same
/// event, whatever is decided.
proof fn lemma_step_keeps_same_point(
    a: FilterView,
    b: FilterView,
    event: EventView,
    keep_a: bool,
    keep_b: bool,
)
    requires
        same_point(a, b),
    ensures
        same_point(
            advance(a, event, time_reading(a, event), keep_a).state,
            advance(b, event, time_reading(b, event), keep_b).state,
        ),
{
}

/// The filter and the run in which every point is kept agree on the
/// current point, whatever the window.
proof fn lemma_runs_agree_on_the_point(events: Seq<EventView>, window: TimeWindow)
    ensures
        same_point(filter_run(events, window).state, uniform_run(events, true).state),
    decreases events.len(),
{
    if events.len() > 0 {
        lemma_runs_agree_on_the_point(events.drop_last(), window);
        let a = filter_run(events.drop_last(), window).state;
        let b = uniform_run(events.drop_last(), true).state;
        lemma_step_keeps_same_point(a, b, events.last(), window.keeps(a.point_time), true);
    }
}

/// A run over two sequences of events one after the other is the run over
/// the first, continued over the second.
proof fn lemma_run_from_concat(state: FilterView, a: Seq<EventView>, b: Seq<EventView>)
    ensures
        run_from(state, a + b, true).state == run_from(
            run_from(state, a, true).state,
            b,
            true,
        ).state,
        points_from(state, a + b) == points_from(state, a) + points_from(
            run_from(state, a, true).state,
            b,
        ),
    decreases b.len(),
{
    let mid = run_from(state, a, true).state;
    if b.len() == 0 {
        assert(a + b =~= a);
        assert(points_from(state, a) + points_from(mid, b) =~= points_from(state, a));
    } else {
        lemma_run_from_concat(state, a, b.drop_last());
        assert((a + b).drop_last() =~= a + b.drop_last());
        assert((a + b).last() == b.last());
        assert(points_from(state, a + b) =~= points_from(state, a) + points_from(mid, b));
    }
}

/// What is held back of an open point, run through the filter again from
/// any state, is held back again: no point is closed, and the state at the
/// end agrees on the point with the state that a run from the start
/// reaches.
proof fn lemma_open_point_replays(state: FilterView, buffer: Seq<EventView>)
    requires
        is_open_point(buffer),
    ensures
        run_from(state, buffer, true).state.inside_point,
        run_from(state, buffer, true).state.buffer == buffer,
        same_point(run_from(state, buffer, true).state, uniform_run(buffer, true).state),
        points_from(state, buffer) == Seq::<PointView>::empty(),
    decreases buffer.len(),
{
    assert(trkseg_name().len() != trkpt_name().len());
    if buffer.len() == 1 {
        assert(buffer.drop_last() =~= Seq::<EventView>::empty());
        assert(points_from(state, buffer.drop_last()) =~= Seq::<PointView>::empty());
        assert(buffer.last() == buffer[0]);
        assert(run_from(state, buffer, true).state.buffer =~= buffer);
        assert(uniform_run(buffer, true).state.buffer =~= buffer);
    } else {
        let shorter = buffer.drop_last();
        assert(is_open_point(shorter));
        lemma_open_point_replays(state, shorter);
        let a = run_from(state, shorter, true).state;
        let b = uniform_run(shorter, true).state;
        let last = buffer.last();
        assert(last == buffer[buffer.len() - 1]);
        assert(!is_point_tag(last) && !is_segment_tag(last));
        lemma_step_keeps_same_point(a, b, last, true, true);
        assert(run_from(state, buffer, true).state.buffer =~= buffer);
    }
}

/// Inside a point, what is held back is an open point, and the state agrees
/// on the point with the state that a run over what is held back reaches.
/// Outside a point nothing is held back.
proof fn lemma_buffer_is_the_open_point(events: Seq<EventView>)
    ensures
        ({
            let state = uniform_run(events, true).state;
            if state.inside_point {
                is_open_point(state.buffer) && same_point(
                    state,
                    uniform_run(state.buffer, true).state,
                )
            } else {
                state.buffer == Seq::<EventView>::empty()
            }
        }),
    decreases events.len(),
{
    assert(trkseg_name().len() != trkpt_name().len());
    if events.len() > 0 {
        lemma_buffer_is_the_open_point(events.drop_last());
        let before = uniform_run(events.drop_last(), true).state;
        let last = events.last();
        let after = uniform_run(events, true).state;
        if is_segment_tag(last) {
        } else if is_tag(last, EventKind::Start, trkpt_name()) {
            let one = seq![last];
            assert(after.buffer =~= one);
            assert(one.drop_last() =~= Seq::<EventView>::empty());
            assert(uniform_run(one, true).state.buffer =~= one);
        } else if is_tag(last, EventKind::End, trkpt_name()) {
        } else if is_empty_point(last) {
        } else if before.inside_point {
            let held = before.buffer;
            let more = held.push(last);
            assert(after.buffer == more);
            assert(more.drop_last() =~= held);
            assert(more.last() == last);
            assert(is_open_point(more)) by {
                assert forall|i: int| 1 <= i < more.len() implies !is_point_tag(
                    #[trigger] more[i],
                ) && !is_segment_tag(more[i]) by {
                    if i < held.len() {
                        assert(more[i] == held[i]);
                    }
                }
            }
            lemma_step_keeps_same_point(
                before,
                uniform_run(held, true).state,
                last,
                true,
                true,
            );
        } else {
        }
    }
}

/// The events that the filter writes hold, as their points, the points of
/// the document whose time lies in the window.
proof fn lemma_kept_points(events: Seq<EventView>, window: TimeWindow)
    ensures
        points_of(kept_events(events, window)) == points_within(points_of(events), window),
        !uniform_run(kept_events(events, window), true).state.inside_point,
        uniform_run(kept_events(events, window), true).state.buffer == Seq::<
            EventView,
        >::empty(),
        ({
            let state = filter_run(events, window).state;
            !state.inside_point && window.keeps(state.point_time) ==> uniform_run(
                kept_events(events, window),
                true,
            ).state.point_time == state.point_time
        }),
    decreases events.len(),
{
    assert(trkseg_name().len() != trkpt_name().len());
    if events.len() == 0 {
    } else {
        let shorter = events.drop_last();
        let last = events.last();
        lemma_kept_points(shorter, window);
        lemma_runs_agree_on_the_point(shorter, window);
        lemma_runs_agree_on_the_point(events, window);
        lemma_buffer_is_the_open_point(shorter);
        let before = filter_run(shorter, window);
        let next = step(before.state, last, window);
        let written = before.emitted;
        let replay = uniform_run(written, true).state;
        let reference = uniform_run(shorter, true).state;
        assert(same_point(before.state, reference));
        lemma_run_from_concat(initial(), written, next.emitted);
        if is_tag(last, EventKind::End, trkpt_name()) {
            let point = PointView {
                events: reference.buffer.push(last),
                time: reference.point_time,
            };
            assert(points_of(events) == points_of(shorter).push(point));
            assert(points_of(events).drop_last() =~= points_of(shorter));
            if window.keeps(before.state.point_time) {
                let held = before.state.buffer;
                let block = held.push(last);
                assert(next.emitted == block);
                assert(block.drop_last() =~= held);
                assert(block.last() == last);
                if before.state.inside_point {
                    lemma_open_point_replays(replay, held);
                } else {
                    assert(held =~= Seq::<EventView>::empty());
                }
                let closing = run_from(replay, held, true).state;
                assert(closing.buffer == held);
                assert(closing.point_time == before.state.point_time);
                assert(points_from(replay, held) =~= Seq::<PointView>::empty());
                assert(points_from(replay, block) =~= seq![point]);
                assert(points_of(written + block) =~= points_of(written).push(point));
                assert(kept_events(events, window) == written + block);
            } else {
                assert(next.emitted =~= Seq::<EventView>::empty());
                assert(written + next.emitted =~= written);
            }
        } else if is_empty_point(last) {
            let point = PointView { events: seq![last], time: None };
            assert(points_of(events) == points_of(shorter).push(point));
            assert(points_of(events).drop_last() =~= points_of(shorter));
            assert(next.emitted =~= Seq::<EventView>::empty());
            assert(written + next.emitted =~= written);
        } else if next.emitted.len() == 0 {
            assert(written + next.emitted =~= written);
            assert(points_of(events) == points_of(shorter));
        } else {
            let one = seq![last];
            assert(next.emitted =~= one);
            assert(one.drop_last() =~= Seq::<EventView>::empty());
            assert(one.last() == last);
            assert(points_from(replay, one.drop_last()) =~= Seq::<PointView>::empty());
            assert(points_from(replay, one) =~= Seq::<PointView>::empty());
            assert(points_of(written + one) =~= points_of(written));
            assert(points_of(events) == points_of(shorter));
            assert(kept_events(events, window) == written + one);
        }
    }
}

/// A window that holds the time of every point holds every point.
proof fn lemma_every_point_within(events: Seq<EventView>, window: TimeWindow)
    requires
        holds_every_point(events, window),
    ensures
        points_within(points_of(events), window) == points_of(events),
    decreases events.len(),
{
    if events.len() > 0 {
        lemma_every_point_within(events.drop_last(), window);
        lemma_runs_agree_on_the_point(events.drop_last(), window);
        if is_tag(events.last(), EventKind::End, trkpt_name()) {
            assert(points_of(events).drop_last() =~= points_of(events.drop_last()));
        }
    }
}

/// A window that holds the time of no point holds no point.
proof fn lemma_no_point_within(events: Seq<EventView>, window: TimeWindow)
    requires
        holds_no_point(events, window),
    ensures
        points_within(points_of(events), window) == Seq::<PointView>::empty(),
    decreases events.len(),
{
    if events.len() > 0 {
        lemma_no_point_within(events.drop_last(), window);
        lemma_runs_agree_on_the_point(events.drop_last(), window);
        if is_tag(events.last(), EventKind::End, trkpt_name()) || is_empty_point(events.last()) {
            assert(points_of(events).drop_last() =~= points_of(events.drop_last()));
        }
    }
}

/// A track point is kept if and only if it has a time and the time lies in
/// the window: the points of the document that the filter writes are the
/// points of the document that it read whose time lies in the window, in
/// the same order and each with all its events.
pub proof fn lemma_output_holds_the_points_in_the_window(
    events: Seq<EventView>,
    window: TimeWindow,
)
    ensures
        points_of(kept_events(events, window)) == points_within(points_of(events), window),
{
    lemma_kept_points(events, window);
}

/// With a window that holds the time of every point, the document that the
/// filter writes has the same points as the document that it read.
pub proof fn lemma_every_point_survives(events: Seq<EventView>, window: TimeWindow)
    requires
        holds_every_point(events, window),
    ensures
        points_of(kept_events(events, window)) == points_of(events),
{
    lemma_kept_points(events, window);
    lemma_every_point_within(events, window);
}

/// With a window that holds the time of no point, the document that the
/// filter writes has no point.
pub proof fn lemma_no_point_survives(events: Seq<EventView>, window: TimeWindow)
    requires
        holds_no_point(events, window),
    ensures
        points_of(kept_events(events, window)) == Seq::<PointView>::empty(),
{
    lemma_kept_points(events, window);
    lemma_no_point_within(events, window);
}

/// A document to which events from outside a point are added, one that is
/// no tag of a point, stays settled: its points side by side, none written
/// as one tag, all held by the window.
proof fn lemma_outside_event_settles(written: Seq<EventView>, event: EventView, window: TimeWindow)
    requires
        points_are_flat(written),
        holds_every_point(written, window),
        !uniform_run(written, true).state.inside_point,
        !is_point_tag(event),
    ensures
        points_are_flat(written.push(event)),
        holds_every_point(written.push(event), window),
{
    assert(written.push(event).drop_last() =~= written);
}

/// A settled document followed by what is held back of an open point is
/// settled as far as it goes.
proof fn lemma_open_point_settles(
    written: Seq<EventView>,
    buffer: Seq<EventView>,
    window: TimeWindow,
)
    requires
        points_are_flat(written),
        holds_every_point(written, window),
        !uniform_run(written, true).state.inside_point,
        is_open_point(buffer),
    ensures
        points_are_flat(written + buffer),
        holds_every_point(written + buffer, window),
    decreases buffer.len(),
{
    assert(trkseg_name().len() != trkpt_name().len());
    let all = written + buffer;
    assert(all.last() == buffer.last());
    if buffer.len() == 1 {
        assert(all.drop_last() =~= written);
        assert(buffer.last() == buffer[0]);
    } else {
        let shorter = buffer.drop_last();
        assert(is_open_point(shorter));
        lemma_open_point_settles(written, shorter, window);
        assert(all.drop_last() =~= written + shorter);
        let last = buffer.last();
        assert(last == buffer[buffer.len() - 1]);
        assert(!is_point_tag(last) && !is_segment_tag(last));
    }
}

/// What the filter writes is settled: its points stand side by side, none
/// is written as one tag, and the window holds the time of each.
proof fn lemma_kept_is_settled(events: Seq<EventView>, window: TimeWindow)
    ensures
        points_are_flat(kept_events(events, window)),
        holds_every_point(kept_events(events, window), window),
    decreases events.len(),
{
    assert(trkseg_name().len() != trkpt_name().len());
    if events.len() > 0 {
        let shorter = events.drop_last();
        let last = events.last();
        lemma_kept_is_settled(shorter, window);
        lemma_kept_points(shorter, window);
        lemma_runs_agree_on_the_point(shorter, window);
        lemma_buffer_is_the_open_point(shorter);
        let before = filter_run(shorter, window);
        let next = step(before.state, last, window);
        let written = before.emitted;
        let replay = uniform_run(written, true).state;
        assert(same_point(before.state, uniform_run(shorter, true).state));
        if is_tag(last, EventKind::End, trkpt_name()) && window.keeps(before.state.point_time) {
            let held = before.state.buffer;
            let block = held.push(last);
            assert(next.emitted == block);
            assert(kept_events(events, window) == written + block);
            assert((written + block).drop_last() =~= written + held);
            assert((written + block).last() == last);
            lemma_runs_agree_on_the_point(written + held, window);
            lemma_run_from_concat(initial(), written, held);
            if before.state.inside_point {
                lemma_open_point_settles(written, held, window);
                lemma_open_point_replays(replay, held);
            } else {
                assert(held =~= Seq::<EventView>::empty());
                assert(written + held =~= written);
            }
            assert(run_from(replay, held, true).state.point_time == before.state.point_time);
        } else if next.emitted.len() == 0 {
            assert(written + next.emitted =~= written);
        } else {
            assert(next.emitted =~= seq![last]);
            assert(written + next.emitted =~= written.push(last));
            lemma_outside_event_settles(written, last, window);
        }
    }
}

/// Filtering twice is filtering once: the filter writes a document that it
/// leaves as it is when it reads it again with the same window.
pub proof fn lemma_filtering_again_changes_nothing(events: Seq<EventView>, window: TimeWindow)
    ensures
        kept_events(kept_events(events, window), window) == kept_events(events, window),
{
    let kept = kept_events(events, window);
    lemma_kept_is_settled(events, window);
    lemma_kept_points(events, window);
    lemma_runs_agree_on_the_point(kept, window);
    lemma_nothing_to_trim(kept, window);
}

/// Whether `part` can be had from `whole` by leaving events out: the
/// events of `part` stand in `whole` in the same order.
pub open spec fn is_subsequence(part: Seq<EventView>, whole: Seq<EventView>) -> bool
    decreases whole.len(),
{
    if part.len() == 0 {
        true
    } else if whole.len() == 0 {
        false
    } else {
        ||| part.last() == whole.last() && is_subsequence(part.drop_last(), whole.drop_last())
        ||| is_subsequence(part, whole.drop_last())
    }
}

/// Whether the segments of the document stay clear of its points: no
/// `<trkseg>` and no `</trkseg>` stands inside a point.
pub open spec fn segments_outside_points(events: Seq<EventView>) -> bool
    decreases events.len(),
{
    events.len() > 0 ==> {
        &&& segments_outside_points(events.drop_last())
        &&& uniform_run(events.drop_last(), true).state.inside_point ==> !is_segment_tag(
            events.last(),
        )
    }
}

/// What can be had from a sequence by leaving events out can be had from a
/// longer one.
proof fn lemma_subsequence_of_longer(
    part: Seq<EventView>,
    whole: Seq<EventView>,
    event: EventView,
)
    requires
        is_subsequence(part, whole),
    ensures
        is_subsequence(part, whole.push(event)),
        is_subsequence(part.push(event), whole.push(event)),
{
    assert(whole.push(event).drop_last() =~= whole);
    assert(part.push(event).drop_last() =~= part);
}

/// The front of what can be had from a sequence can be had from it.
proof fn lemma_subsequence_front(a: Seq<EventView>, b: Seq<EventView>, whole: Seq<EventView>)
    requires
        is_subsequence(a + b, whole),
    ensures
        is_subsequence(a, whole),
    decreases whole.len(), b.len(),
{
    if a.len() == 0 {
    } else if b.len() == 0 {
        assert(a + b =~= a);
    } else {
        let all = a + b;
        assert(all.last() == b.last());
        assert(all.drop_last() =~= a + b.drop_last());
        if all.last() == whole.last() && is_subsequence(all.drop_last(), whole.drop_last()) {
            lemma_subsequence_front(a, b.drop_last(), whole.drop_last());
            lemma_subsequence_of_longer(a, whole.drop_last(), whole.last());
            assert(whole.drop_last().push(whole.last()) =~= whole);
        } else {
            lemma_subsequence_front(a, b, whole.drop_last());
            lemma_subsequence_of_longer(a, whole.drop_last(), whole.last());
            assert(whole.drop_last().push(whole.last()) =~= whole);
        }
    }
}

/// What the filter has written, followed by what it holds back, stands in
/// the document in the same order.
proof fn lemma_written_and_held_keep_their_order(events: Seq<EventView>, window: TimeWindow)
    requires
        segments_outside_points(events),
    ensures
        is_subsequence(
            kept_events(events, window) + filter_run(events, window).state.buffer,
            events,
        ),
    decreases events.len(),
{
    assert(trkseg_name().len() != trkpt_name().len());
    if events.len() == 0 {
        assert(kept_events(events, window) + filter_run(events, window).state.buffer
            =~= Seq::<EventView>::empty());
    } else {
        let shorter = events.drop_last();
        let last = events.last();
        lemma_written_and_held_keep_their_order(shorter, window);
        lemma_runs_agree_on_the_point(shorter, window);
        lemma_buffer_is_the_open_point(shorter);
        let before = filter_run(shorter, window);
        let after = filter_run(events, window);
        let was = before.emitted + before.state.buffer;
        let now = after.emitted + after.state.buffer;
        assert(shorter.push(last) =~= events);
        if now =~= was.push(last) {
            lemma_subsequence_of_longer(was, shorter, last);
        } else if now =~= was {
            lemma_subsequence_of_longer(was, shorter, last);
        } else if now =~= before.emitted {
            lemma_subsequence_front(before.emitted, before.state.buffer, shorter);
            lemma_subsequence_of_longer(before.emitted, shorter, last);
        } else {
            assert(now =~= before.emitted.push(last));
            lemma_subsequence_front(before.emitted, before.state.buffer, shorter);
            lemma_subsequence_of_longer(before.emitted, shorter, last);
        }
    }
}

/// The filter leaves out and never moves: where no segment is opened or
/// closed inside a point, the events that it writes stand in the order in
/// which they stood in the document.
pub proof fn lemma_kept_events_keep_their_order(events: Seq<EventView>, window: TimeWindow)
    requires
        segments_outside_points(events),
    ensures
        is_subsequence(kept_events(events, window), events),
{
    lemma_written_and_held_keep_their_order(events, window);
    lemma_subsequence_front(
        kept_events(events, window),
        filter_run(events, window).state.buffer,
        events,
    );
}

} // verus!
