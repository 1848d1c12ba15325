//! The track point filter: rewrites a document so that only the track
//! points whose time lies in a window survive.
//!
//! The filter is a fold over the events of the document. [`step`] is one
//! step of it, [`filter_run`] the whole of it, and [`PointFilter`] the record
//! that the executable code threads through.

use crate::bytes::{append_bytes, is_blank, is_blank_text, is_utf8};
use crate::event::{
    events_view, is_time, is_trkpt, is_trkseg, time_name, trkpt_name, trkseg_name, EventKind,
    EventView, XmlError, XmlEvent,
};
use crate::instant::{iso8601_instant, parse_iso8601, Instant, TimeWindow};
use crate::reader::{document_scan, read_document};
use vstd::prelude::*;
use vstd::utf8::valid_utf8;

verus! {

/// What the filter does with whitespace between track points.
#[derive(Clone, Copy, Debug, PartialEq, Eq, Structural)]
pub enum BlankMode {
    /// Whitespace is written like any other text.
    Normal,
    /// A track point has just been dropped: if whitespace follows it
    /// directly, inside the track segment, that is dropped too, so that no
    /// blank lines pile up where points were. The event that comes next
    /// ends this mode, whatever it is.
    SuppressingBlankAfterDrop,
}

/// The state of the filter between two events.
pub struct FilterView {
    /// Whether the last `<trkpt>` has not been closed yet.
    pub inside_point: bool,
    /// The events of the current point, held back until its time is known.
    pub buffer: Seq<EventView>,
    /// The text gathered so far in the open `<time>` of the current point.
    pub pending_time: Option<Seq<u8>>,
    /// The time of the current point, once a `<time>` of it has been read.
    pub point_time: Option<Instant>,
    /// Whether the last `<trkseg>` has not been closed yet.
    pub inside_segment: bool,
    /// Whether whitespace is being dropped after a dropped point.
    pub mode: BlankMode,
}

/// The outcome of one or more steps.
pub struct Step {
    /// The state reached.
    pub state: FilterView,
    /// The events written on the way, in order.
    pub emitted: Seq<EventView>,
}

/// The state before the first event.
pub open spec fn initial() -> FilterView {
    FilterView {
        inside_point: false,
        buffer: Seq::empty(),
        pending_time: None,
        point_time: None,
        inside_segment: false,
        mode: BlankMode::Normal,
    }
}

/// Whether `event` opens or closes an element called `name`.
pub open spec fn is_tag(event: EventView, kind: EventKind, name: Seq<u8>) -> bool {
    event.kind == kind && event.name == name
}

/// Whether `event` closes the `<time>` of the current point.
pub open spec fn closes_time(state: FilterView, event: EventView) -> bool {
    &&& state.inside_point
    &&& state.pending_time is Some
    &&& is_tag(event, EventKind::End, time_name())
}

/// The time that `event` completes: where it closes the `<time>` of the
/// current point, the instant written in the text gathered there.
pub open spec fn time_reading(state: FilterView, event: EventView) -> Option<Instant> {
    if closes_time(state, event) {
        iso8601_instant(state.pending_time->0)
    } else {
        None
    }
}

/// The state after an event that is held back, where `reading` is the time
/// read from the text gathered so far in case the event closes a `<time>`.
pub open spec fn buffer_event(
    state: FilterView,
    event: EventView,
    reading: Option<Instant>,
) -> FilterView {
    let buffer = state.buffer.push(event);
    if is_tag(event, EventKind::Start, time_name()) {
        FilterView { buffer, pending_time: Some(Seq::empty()), ..state }
    } else if is_tag(event, EventKind::End, time_name()) {
        FilterView {
            buffer,
            pending_time: None,
            point_time: if state.pending_time is Some && reading is Some {
                reading
            } else {
                state.point_time
            },
            ..state
        }
    } else if event.kind == EventKind::Text && state.pending_time is Some && valid_utf8(
        event.text,
    ) {
        FilterView { buffer, pending_time: Some(state.pending_time->0 + event.text), ..state }
    } else {
        FilterView { buffer, ..state }
    }
}

/// Whether `event` is whitespace that is dropped: a text of nothing but
/// whitespace that comes directly after a dropped point, inside a segment.
pub open spec fn is_suppressed(state: FilterView, event: EventView) -> bool {
    &&& state.mode == BlankMode::SuppressingBlankAfterDrop
    &&& state.inside_segment
    &&& event.kind == EventKind::Text
    &&& is_blank(event.text)
}

/// One step of the filter, given the time that the event completes and
/// whether a point that the event closes is to be kept.
///
/// - A `<trkseg>` or `</trkseg>` is written at once.
/// - A `<trkpt>` starts a new point: the buffer then holds this tag alone
///   and the point has no time yet.
/// - A `</trkpt>` decides the point: if it is kept, the buffer and the
///   closing tag are written; if not, they are dropped and whitespace is
///   suppressed for the event that comes next.
/// - A `<trkpt/>`, a point written as one tag, is a point without a time:
///   it is dropped whatever is decided, with all that was held back, and
///   whitespace is suppressed for the event that comes next.
/// - Any other event inside a point is held back.
/// - Outside a point, whitespace directly after a dropped point and inside
///   a segment is dropped; everything else is written.
pub open spec fn advance(
    state: FilterView,
    event: EventView,
    reading: Option<Instant>,
    keep: bool,
) -> Step {
    if is_tag(event, EventKind::Start, trkseg_name()) {
        Step {
            state: FilterView { inside_segment: true, mode: BlankMode::Normal, ..state },
            emitted: seq![event],
        }
    } else if is_tag(event, EventKind::End, trkseg_name()) {
        Step {
            state: FilterView { inside_segment: false, mode: BlankMode::Normal, ..state },
            emitted: seq![event],
        }
    } else if is_tag(event, EventKind::Start, trkpt_name()) {
        Step {
            state: FilterView {
                inside_point: true,
                buffer: seq![event],
                pending_time: None,
                point_time: None,
                mode: BlankMode::Normal,
                ..state
            },
            emitted: Seq::empty(),
        }
    } else if is_tag(event, EventKind::End, trkpt_name()) {
        if keep {
            Step {
                state: FilterView {
                    inside_point: false,
                    buffer: Seq::empty(),
                    pending_time: None,
                    mode: BlankMode::Normal,
                    ..state
                },
                emitted: state.buffer.push(event),
            }
        } else {
            Step {
                state: FilterView {
                    inside_point: false,
                    buffer: Seq::empty(),
                    pending_time: None,
                    mode: BlankMode::SuppressingBlankAfterDrop,
                    ..state
                },
                emitted: Seq::empty(),
            }
        }
    } else if is_tag(event, EventKind::Empty, trkpt_name()) {
        Step {
            state: FilterView {
                inside_point: false,
                buffer: Seq::empty(),
                pending_time: None,
                point_time: None,
                mode: BlankMode::SuppressingBlankAfterDrop,
                ..state
            },
            emitted: Seq::empty(),
        }
    } else if state.inside_point {
        Step { state: buffer_event(state, event, reading), emitted: Seq::empty() }
    } else if is_suppressed(state, event) {
        Step {
            state: FilterView { mode: BlankMode::Normal, ..state },
            emitted: Seq::empty(),
        }
    } else {
        Step { state: FilterView { mode: BlankMode::Normal, ..state }, emitted: seq![event] }
    }
}

/// One step of the filter: a point is kept if its time lies in the window,
/// and dropped if it does not or if the point has no time.
pub open spec fn step(state: FilterView, event: EventView, window: TimeWindow) -> Step {
    advance(state, event, time_reading(state, event), window.keeps(state.point_time))
}

/// The filter run over `events` from the start: the state it ends in and
/// the events it has written.
pub open spec fn filter_run(events: Seq<EventView>, window: TimeWindow) -> Step
    decreases events.len(),
{
    if events.len() == 0 {
        Step { state: initial(), emitted: Seq::empty() }
    } else {
        let before = filter_run(events.drop_last(), window);
        let next = step(before.state, events.last(), window);
        Step { state: next.state, emitted: before.emitted + next.emitted }
    }
}

/// The events of a document that survive the filter, in the order in which
/// they are written.
pub open spec fn kept_events(events: Seq<EventView>, window: TimeWindow) -> Seq<EventView> {
    filter_run(events, window).emitted
}

/// The bytes that a sequence of events becomes in a document: the markup of
/// each, one after the other.
pub open spec fn markup_of(events: Seq<EventView>) -> Seq<u8>
    decreases events.len(),
{
    if events.len() == 0 {
        Seq::empty()
    } else {
        markup_of(events.drop_last()) + events.last().markup
    }
}

/// The markup of two sequences of events one after the other is the markup
/// of the first followed by that of the second.
pub proof fn lemma_markup_of_concat(a: Seq<EventView>, b: Seq<EventView>)
    ensures
        markup_of(a + b) == markup_of(a) + markup_of(b),
    decreases b.len(),
{
    if b.len() == 0 {
        assert(a + b =~= a);
        assert(markup_of(a) + markup_of(b) =~= markup_of(a));
    } else {
        lemma_markup_of_concat(a, b.drop_last());
        assert((a + b).drop_last() =~= a + b.drop_last());
        assert((a + b).last() == b.last());
        assert(markup_of(a + b) =~= markup_of(a) + markup_of(b));
    }
}

/// The markup of a single event.
pub proof fn lemma_markup_of_one(event: EventView)
    ensures
        markup_of(seq![event]) == event.markup,
{
    let one = seq![event];
    assert(one.drop_last() =~= Seq::<EventView>::empty());
    assert(markup_of(one.drop_last()) =~= Seq::<u8>::empty());
    assert(markup_of(one) =~= event.markup);
}

/// The record that the filter threads through a document.
pub struct PointFilter {
    window: TimeWindow,
    inside_point: bool,
    point_buffer: Vec<XmlEvent>,
    inside_time: bool,
    time_text: Vec<u8>,
    point_time: Option<Instant>,
    inside_segment: bool,
    mode: BlankMode,
}

impl View for PointFilter {
    type V = FilterView;

    closed spec fn view(&self) -> FilterView {
        FilterView {
            inside_point: self.inside_point,
            buffer: events_view(self.point_buffer@),
            pending_time: if self.inside_time {
                Some(self.time_text@)
            } else {
                None
            },
            point_time: self.point_time,
            inside_segment: self.inside_segment,
            mode: self.mode,
        }
    }
}

impl PointFilter {
    /// The window that this filter keeps points of.
    pub closed spec fn window(&self) -> TimeWindow {
        self.window
    }

    /// A filter at the start of a document.
    pub fn new(window: TimeWindow) -> (filter: PointFilter)
        ensures
            filter@ == initial(),
            filter.window() == window,
    {
        let filter = PointFilter {
            window,
            inside_point: false,
            point_buffer: Vec::new(),
            inside_time: false,
            time_text: Vec::new(),
            point_time: None,
            inside_segment: false,
            mode: BlankMode::Normal,
        };
        assert(filter@.buffer =~= Seq::empty());
        filter
    }

    /// Whether `event` closes the `<time>` of the current point.
    fn closes_time(&self, event: &XmlEvent) -> (r: bool)
        ensures
            r == closes_time(self@, event@),
    {
        self.inside_point && self.inside_time && event.kind == EventKind::End && is_time(
            &event.name,
        )
    }

    /// Takes one event, given the time that it completes, and appends to
    /// `out` what is written for it.
    pub fn advance(&mut self, event: &XmlEvent, reading: Option<Instant>, out: &mut Vec<u8>)
        ensures
            final(self).window() == old(self).window(),
            final(self)@ == advance(
                old(self)@,
                event@,
                reading,
                old(self).window().keeps(old(self)@.point_time),
            ).state,
            final(out)@ == old(out)@ + markup_of(
                advance(
                    old(self)@,
                    event@,
                    reading,
                    old(self).window().keeps(old(self)@.point_time),
                ).emitted,
            ),
    {
        let ghost before = self@;
        let ghost target = advance(before, event@, reading, self.window.keeps(before.point_time));
        let starts = event.kind == EventKind::Start;
        let ends = event.kind == EventKind::End;
        if (starts || ends) && is_trkseg(&event.name) {
            self.inside_segment = starts;
            self.mode = BlankMode::Normal;
            append_bytes(out, &event.markup);
            proof {
                lemma_markup_of_one(event@);
            }
        } else if starts && is_trkpt(&event.name) {
            self.inside_point = true;
            self.point_buffer.clear();
            self.point_buffer.push(event.duplicate());
            self.inside_time = false;
            self.time_text.clear();
            self.point_time = None;
            self.mode = BlankMode::Normal;
            assert(self@.buffer =~= seq![event@]);
            assert(out@ =~= old(out)@ + markup_of(Seq::<EventView>::empty()));
        } else if ends && is_trkpt(&event.name) {
            if self.window.retains(self.point_time) {
                let mut i: usize = 0;
                while i < self.point_buffer.len()
                    invariant
                        i <= self.point_buffer.len(),
                        out@ == old(out)@ + markup_of(
                            events_view(self.point_buffer@).take(i as int),
                        ),
                    decreases self.point_buffer.len() - i,
                {
                    let ghost done = events_view(self.point_buffer@).take(i as int);
                    append_bytes(out, &self.point_buffer[i].markup);
                    i += 1;
                    proof {
                        let now = events_view(self.point_buffer@).take(i as int);
                        assert(now.drop_last() =~= done);
                        assert(now.last() == self.point_buffer@[i - 1]@);
                    }
                }
                append_bytes(out, &event.markup);
                proof {
                    let held = events_view(self.point_buffer@);
                    assert(held.take(held.len() as int) =~= held);
                    assert(held.push(event@).drop_last() =~= held);
                    assert(out@ =~= old(out)@ + markup_of(held.push(event@)));
                }
                self.mode = BlankMode::Normal;
            } else {
                self.mode = BlankMode::SuppressingBlankAfterDrop;
                assert(out@ =~= old(out)@ + markup_of(Seq::<EventView>::empty()));
            }
            self.inside_point = false;
            self.point_buffer.clear();
            self.inside_time = false;
            assert(self@.buffer =~= Seq::empty());
        } else if event.kind == EventKind::Empty && is_trkpt(&event.name) {
            self.inside_point = false;
            self.point_buffer.clear();
            self.inside_time = false;
            self.point_time = None;
            self.mode = BlankMode::SuppressingBlankAfterDrop;
            assert(self@.buffer =~= Seq::empty());
            assert(out@ =~= old(out)@ + markup_of(Seq::<EventView>::empty()));
        } else if self.inside_point {
            if starts && is_time(&event.name) {
                self.inside_time = true;
                self.time_text.clear();
            } else if ends && is_time(&event.name) {
                if self.inside_time {
                    if let Some(t) = reading {
                        self.point_time = Some(t);
                    }
                }
                self.inside_time = false;
            } else if event.kind == EventKind::Text && self.inside_time && is_utf8(&event.text) {
                append_bytes(&mut self.time_text, &event.text);
            }
            self.point_buffer.push(event.duplicate());
            assert(self@.buffer =~= before.buffer.push(event@));
            assert(out@ =~= old(out)@ + markup_of(Seq::<EventView>::empty()));
        } else if self.mode == BlankMode::SuppressingBlankAfterDrop && self.inside_segment
            && event.kind == EventKind::Text && is_blank_text(&event.text) {
            self.mode = BlankMode::Normal;
            assert(out@ =~= old(out)@ + markup_of(Seq::<EventView>::empty()));
        } else {
            self.mode = BlankMode::Normal;
            append_bytes(out, &event.markup);
            proof {
                lemma_markup_of_one(event@);
            }
        }
        assert(self@ == target.state);
    }

    /// Takes one event and appends to `out` what is written for it.
    pub fn step(&mut self, event: &XmlEvent, out: &mut Vec<u8>)
        ensures
            final(self).window() == old(self).window(),
            final(self)@ == step(old(self)@, event@, old(self).window()).state,
            final(out)@ == old(out)@ + markup_of(
                step(old(self)@, event@, old(self).window()).emitted,
            ),
    {
        let reading = if self.closes_time(event) {
            parse_iso8601(&self.time_text)
        } else {
            None
        };
        self.advance(event, reading, out)
    }
}

/// Filters the events of a document: the bytes of the events that survive.
pub fn filter_events(events: &[XmlEvent], window: TimeWindow) -> (out: Vec<u8>)
    ensures
        out@ == markup_of(kept_events(events_view(events@), window)),
{
    let ghost all = events_view(events@);
    let mut filter = PointFilter::new(window);
    let mut out: Vec<u8> = Vec::new();
    let mut i: usize = 0;
    assert(all.take(0) =~= Seq::<EventView>::empty());
    while i < events.len()
        invariant
            i <= events.len(),
            all == events_view(events@),
            filter.window() == window,
            filter@ == filter_run(all.take(i as int), window).state,
            out@ == markup_of(filter_run(all.take(i as int), window).emitted),
        decreases events.len() - i,
    {
        let ghost before = filter_run(all.take(i as int), window);
        filter.step(&events[i], &mut out);
        i += 1;
        proof {
            let now = all.take(i as int);
            assert(now.drop_last() =~= all.take(i - 1));
            assert(now.last() == events@[i - 1]@);
            lemma_markup_of_concat(before.emitted, step(before.state, now.last(), window).emitted);
        }
    }
    assert(all.take(events.len() as int) =~= all);
    out
}

/// Filters a document to the track points whose time lies in `window`, and
/// returns the result.
///
/// Fails exactly when the document cannot be read to its end.
pub fn filter_document(input: &[u8], window: TimeWindow) -> (r: Result<Vec<u8>, XmlError>)
    ensures
        match r {
            Ok(out) => {
                &&& document_scan(input@).failure is None
                &&& out@ == markup_of(kept_events(document_scan(input@).events, window))
            },
            Err(e) => document_scan(input@).failure == Some(e@),
        },
{
    match read_document(input) {
        Err(e) => Err(e),
        Ok(events) => Ok(filter_events(events.as_slice(), window)),
    }
}

/// Filters a document and appends the result to `output`.
///
/// With an upper bound, a track point is kept if its time lies at or after
/// `start_threshold` and before `end_threshold`; without one, if its time
/// lies at or before `start_threshold`. A point without a readable time is
/// never kept.
///
/// Fails exactly when the document cannot be read to its end, and then
/// leaves `output` as it was.
pub fn filter_xml_by_time_to_writer(
    input: &[u8],
    start_threshold: Instant,
    end_threshold: Option<Instant>,
    output: &mut Vec<u8>,
) -> (r: Result<(), XmlError>)
    ensures
        match r {
            Ok(()) => {
                &&& document_scan(input@).failure is None
                &&& final(output)@ == old(output)@ + markup_of(
                    kept_events(
                        document_scan(input@).events,
                        TimeWindow::of_thresholds(start_threshold, end_threshold),
                    ),
                )
            },
            Err(e) => {
                &&& document_scan(input@).failure == Some(e@)
                &&& final(output)@ == old(output)@
            },
        },
{
    let window = TimeWindow::from_thresholds(start_threshold, end_threshold);
    match filter_document(input, window) {
        Err(e) => Err(e),
        Ok(bytes) => {
            append_bytes(output, bytes.as_slice());
            Ok(())
        },
    }
}

/// Filters a document to the track points whose time lies at or after
/// `start_threshold` and before `end_threshold`, and returns the result.
///
/// Fails exactly when the document cannot be read to its end.
pub fn filter_xml_by_time_range(
    input: &[u8],
    start_threshold: Instant,
    end_threshold: Instant,
) -> (r: Result<Vec<u8>, XmlError>)
    ensures
        match r {
            Ok(out) => {
                &&& document_scan(input@).failure is None
                &&& out@ == markup_of(
                    kept_events(
                        document_scan(input@).events,
                        TimeWindow::Range { start: start_threshold, end: end_threshold },
                    ),
                )
            },
            Err(e) => document_scan(input@).failure == Some(e@),
        },
{
    filter_document(input, TimeWindow::Range { start: start_threshold, end: end_threshold })
}

} // verus!
