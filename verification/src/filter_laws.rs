//! What holds of the filter on every document.

use crate::bytes::is_blank;
use crate::event::{trkpt_name, trkseg_name, EventKind, EventView};
use crate::filter::{
    advance, filter_run, initial, is_tag, kept_events, step, time_reading, BlankMode, FilterView,
    Step,
};
use crate::instant::{Instant, TimeWindow};
use vstd::prelude::*;

verus! {

/// The filter run on from `state` over `events`, with one decision for
/// every point: all kept, or all dropped.
pub open spec fn run_from(state: FilterView, events: Seq<EventView>, keep: bool) -> Step
    decreases events.len(),
{
    if events.len() == 0 {
        Step { state, emitted: Seq::empty() }
    } else {
        let before = run_from(state, events.drop_last(), keep);
        let next = advance(
            before.state,
            events.last(),
            time_reading(before.state, events.last()),
            keep,
        );
        Step { state: next.state, emitted: before.emitted + next.emitted }
    }
}

/// The filter run over `events` from the start, with one decision for
/// every point: all kept, or all dropped.
pub open spec fn uniform_run(events: Seq<EventView>, keep: bool) -> Step {
    run_from(initial(), events, keep)
}

/// The document as it is written when every point that can be kept is
/// kept. A point written as one tag, `<trkpt/>`, has no time and is
/// dropped all the same.
pub open spec fn untrimmed(events: Seq<EventView>) -> Seq<EventView> {
    uniform_run(events, true).emitted
}

/// The document as it is written when every point is dropped.
pub open spec fn stripped(events: Seq<EventView>) -> Seq<EventView> {
    uniform_run(events, false).emitted
}

/// Whether `event` is a track point written as one tag, `<trkpt/>`.
pub open spec fn is_empty_point(event: EventView) -> bool {
    is_tag(event, EventKind::Empty, trkpt_name())
}

/// Whether `event` is a tag of a track point: `<trkpt>`, `</trkpt>` or
/// `<trkpt/>`.
pub open spec fn is_point_tag(event: EventView) -> bool {
    ||| is_tag(event, EventKind::Start, trkpt_name())
    ||| is_tag(event, EventKind::End, trkpt_name())
    ||| is_empty_point(event)
}

/// Whether no point of the document is written as one tag.
pub open spec fn has_no_empty_point(events: Seq<EventView>) -> bool {
    forall|i: int| 0 <= i < events.len() ==> !is_empty_point(#[trigger] events[i])
}

/// Whether `event` opens or closes a track segment.
pub open spec fn is_segment_tag(event: EventView) -> bool {
    is_tag(event, EventKind::Start, trkseg_name()) || is_tag(
        event,
        EventKind::End,
        trkseg_name(),
    )
}

/// Whether the window holds the time of every point of the document: at
/// each `</trkpt>` the point has a time, and the time lies in the window.
/// A point written as one tag has no time, so no window holds it.
pub open spec fn holds_every_point(events: Seq<EventView>, window: TimeWindow) -> bool
    decreases events.len(),
{
    events.len() > 0 ==> {
        &&& holds_every_point(events.drop_last(), window)
        &&& !is_empty_point(events.last())
        &&& is_tag(events.last(), EventKind::End, trkpt_name()) ==> window.keeps(
            filter_run(events.drop_last(), window).state.point_time,
        )
    }
}

/// Whether the window holds the time of no point of the document: at each
/// `</trkpt>` the point has no time, or its time lies outside the window.
/// A point written as one tag has no time and stands in no one's way.
pub open spec fn holds_no_point(events: Seq<EventView>, window: TimeWindow) -> bool
    decreases events.len(),
{
    events.len() > 0 ==> {
        &&& holds_no_point(events.drop_last(), window)
        &&& is_tag(events.last(), EventKind::End, trkpt_name()) ==> !window.keeps(
            filter_run(events.drop_last(), window).state.point_time,
        )
    }
}

/// Whether the points of the document stand side by side: no point and no
/// segment is opened, and no segment closed, inside a point.
pub open spec fn points_are_flat(events: Seq<EventView>) -> bool
    decreases events.len(),
{
    events.len() > 0 ==> {
        &&& points_are_flat(events.drop_last())
        &&& uniform_run(events.drop_last(), true).state.inside_point ==> !is_tag(
            events.last(),
            EventKind::Start,
            trkpt_name(),
        ) && !is_segment_tag(events.last())
    }
}

/// Whether `event` is a text of nothing but whitespace.
pub open spec fn is_blank_event(event: EventView) -> bool {
    event.kind == EventKind::Text && is_blank(event.text)
}

/// `events` without the texts of nothing but whitespace.
pub open spec fn without_blanks(events: Seq<EventView>) -> Seq<EventView>
    decreases events.len(),
{
    if events.len() == 0 {
        Seq::empty()
    } else if is_blank_event(events.last()) {
        without_blanks(events.drop_last())
    } else {
        without_blanks(events.drop_last()).push(events.last())
    }
}

/// What stands around the points of a document: every event but the tags
/// of the points and what stands inside a point. The tags of segments
/// always count as standing outside.
pub open spec fn surroundings(events: Seq<EventView>) -> Seq<EventView>
    decreases events.len(),
{
    if events.len() == 0 {
        Seq::empty()
    } else {
        let before = surroundings(events.drop_last());
        let state = uniform_run(events.drop_last(), false).state;
        if is_point_tag(events.last()) || (state.inside_point && !is_segment_tag(events.last())) {
            before
        } else {
            before.push(events.last())
        }
    }
}

/// A window that holds the time of every point changes nothing: the filter
/// writes what it writes when every point is kept.
pub proof fn lemma_window_holding_every_point(events: Seq<EventView>, window: TimeWindow)
    requires
        holds_every_point(events, window),
    ensures
        filter_run(events, window) == uniform_run(events, true),
        kept_events(events, window) == untrimmed(events),
    decreases events.len(),
{
    if events.len() > 0 {
        lemma_window_holding_every_point(events.drop_last(), window);
    }
}

/// A window that holds the time of no point leaves no point and nothing but
/// what stands around the points: the filter writes what it writes when
/// every point is dropped, which has no `<trkpt>`, no `</trkpt>` and no
/// `<trkpt/>` in it and is, but for whitespace, what stands around the
/// points of the document.
pub proof fn lemma_window_holding_no_point(events: Seq<EventView>, window: TimeWindow)
    requires
        holds_no_point(events, window),
    ensures
        filter_run(events, window) == uniform_run(events, false),
        kept_events(events, window) == stripped(events),
        forall|i: int|
            0 <= i < kept_events(events, window).len() ==> !is_point_tag(
                #[trigger] kept_events(events, window)[i],
            ),
        without_blanks(kept_events(events, window)) == without_blanks(surroundings(events)),
    decreases events.len(),
{
    if events.len() > 0 {
        lemma_window_holding_no_point(events.drop_last(), window);
    }
    lemma_stripped_has_no_point(events);
    lemma_stripped_is_the_surroundings(events);
}

/// Leaving out the whitespace of a sequence with one event more.
proof fn lemma_without_blanks_push(events: Seq<EventView>, event: EventView)
    ensures
        without_blanks(events.push(event)) == if is_blank_event(event) {
            without_blanks(events)
        } else {
            without_blanks(events).push(event)
        },
{
    assert(events.push(event).drop_last() =~= events);
}

/// With every point dropped, what is written is, but for whitespace, what
/// stands around the points of the document.
pub proof fn lemma_stripped_is_the_surroundings(events: Seq<EventView>)
    ensures
        without_blanks(stripped(events)) == without_blanks(surroundings(events)),
    decreases events.len(),
{
    if events.len() > 0 {
        lemma_stripped_is_the_surroundings(events.drop_last());
        let before = uniform_run(events.drop_last(), false);
        let last = events.last();
        let next = advance(before.state, last, time_reading(before.state, last), false);
        assert(trkseg_name().len() != trkpt_name().len());
        lemma_without_blanks_push(before.emitted, last);
        lemma_without_blanks_push(surroundings(events.drop_last()), last);
        if next.emitted.len() == 0 {
            assert(before.emitted + next.emitted =~= before.emitted);
        } else {
            assert(next.emitted =~= seq![last]);
            assert(before.emitted + next.emitted =~= before.emitted.push(last));
        }
    }
}

/// With every point dropped, no `<trkpt>`, no `</trkpt>` and no `<trkpt/>`
/// is written.
pub proof fn lemma_stripped_has_no_point(events: Seq<EventView>)
    ensures
        forall|i: int|
            0 <= i < stripped(events).len() ==> !is_point_tag(#[trigger] stripped(events)[i]),
    decreases events.len(),
{
    if events.len() > 0 {
        lemma_stripped_has_no_point(events.drop_last());
        let before = uniform_run(events.drop_last(), false);
        let last = events.last();
        let next = advance(before.state, last, time_reading(before.state, last), false);
        assert(trkseg_name().len() != trkpt_name().len());
        assert(next.emitted.len() == 0 || (next.emitted =~= seq![last] && !is_point_tag(last)));
        assert forall|i: int| 0 <= i < stripped(events).len() implies !is_point_tag(
            #[trigger] stripped(events)[i],
        ) by {
            if i < before.emitted.len() {
                assert(stripped(events)[i] == stripped(events.drop_last())[i]);
            } else {
                assert(stripped(events)[i] == next.emitted[i - before.emitted.len()]);
            }
        }
    }
}

/// With every point kept, the points side by side and none of them
/// written as one tag, nothing is lost and nothing moves: what has been
/// written, followed by what is still held back of an open point, is the
/// document itself.
pub proof fn lemma_untrimmed_is_the_document(events: Seq<EventView>)
    requires
        points_are_flat(events),
        has_no_empty_point(events),
    ensures
        untrimmed(events) + uniform_run(events, true).state.buffer == events,
        uniform_run(events, true).state.mode == BlankMode::Normal,
        !uniform_run(events, true).state.inside_point ==> untrimmed(events) == events,
    decreases events.len(),
{
    lemma_flat_run(events);
    let run = uniform_run(events, true);
    if !run.state.inside_point {
        assert(run.emitted + run.state.buffer =~= run.emitted);
    }
}

proof fn lemma_flat_run(events: Seq<EventView>)
    requires
        points_are_flat(events),
        has_no_empty_point(events),
    ensures
        uniform_run(events, true).emitted + uniform_run(events, true).state.buffer == events,
        uniform_run(events, true).state.mode == BlankMode::Normal,
        !uniform_run(events, true).state.inside_point ==> uniform_run(
            events,
            true,
        ).state.buffer.len() == 0,
    decreases events.len(),
{
    if events.len() == 0 {
        assert(uniform_run(events, true).emitted + uniform_run(events, true).state.buffer
            =~= events);
    } else {
        assert(!is_empty_point(events[events.len() - 1]));
        assert forall|i: int| 0 <= i < events.drop_last().len() implies !is_empty_point(
            #[trigger] events.drop_last()[i],
        ) by {
            assert(events.drop_last()[i] == events[i]);
        }
        lemma_flat_run(events.drop_last());
        let before = uniform_run(events.drop_last(), true);
        let after = uniform_run(events, true);
        assert(events =~= events.drop_last().push(events.last()));
        assert(after.emitted + after.state.buffer =~= (before.emitted
            + before.state.buffer).push(events.last()));
    }
}

/// A filter whose window holds the time of every point, on a document whose
/// points stand side by side and are all closed, writes the document as it
/// was.
pub proof fn lemma_nothing_to_trim(events: Seq<EventView>, window: TimeWindow)
    requires
        holds_every_point(events, window),
        points_are_flat(events),
        !filter_run(events, window).state.inside_point,
    ensures
        kept_events(events, window) == events,
{
    lemma_window_holding_every_point(events, window);
    lemma_held_points_are_not_empty(events, window);
    lemma_untrimmed_is_the_document(events);
}

/// A window holds the time of every point only where no point is written
/// as one tag.
pub proof fn lemma_held_points_are_not_empty(events: Seq<EventView>, window: TimeWindow)
    requires
        holds_every_point(events, window),
    ensures
        has_no_empty_point(events),
    decreases events.len(),
{
    if events.len() > 0 {
        lemma_held_points_are_not_empty(events.drop_last(), window);
        assert forall|i: int| 0 <= i < events.len() implies !is_empty_point(
            #[trigger] events[i],
        ) by {
            if i < events.len() - 1 {
                assert(events[i] == events.drop_last()[i]);
            }
        }
    }
}

/// What the closing tag of a point does, by the time of the point and the
/// bounds of the window: a point at the start of a two-sided window is
/// written with all that was held back of it, a point at the end of a
/// two-sided window is dropped, and a point at the threshold of a one-sided
/// window is written.
pub proof fn lemma_point_at_the_bounds(
    state: FilterView,
    event: EventView,
    bound: Instant,
    other: Instant,
)
    requires
        is_tag(event, EventKind::End, trkpt_name()),
        state.point_time == Some(bound),
    ensures
        bound.nanos < other.nanos ==> step(
            state,
            event,
            TimeWindow::Range { start: bound, end: other },
        ).emitted == state.buffer.push(event),
        step(state, event, TimeWindow::Range { start: other, end: bound }).emitted
            == Seq::<EventView>::empty(),
        step(state, event, TimeWindow::Until { threshold: bound }).emitted == state.buffer.push(
            event,
        ),
{
    assert(trkseg_name().len() != trkpt_name().len());
}

} // verus!
