//! The two read-only passes over a document: the earliest time of its track
//! points, and its track points as samples.
//!
//! Both follow the same clock through the events, which knows whether it is
//! inside a `<trkpt>` and inside a `<time>` of it, and gathers the text of
//! the `<time>`.

use crate::bytes::{append_bytes, bytes_equal, copy_bytes, is_utf8};
use crate::decimal::{is_decimal, is_decimal_text};
use crate::event::{
    attributes_view, events_view, is_time, is_trkpt, time_name, trkpt_name, AttributeView,
    EventKind, EventView, XmlAttribute, XmlError, XmlEvent,
};
use crate::filter::is_tag;
use crate::instant::{iso8601_instant, parse_iso8601, Instant};
use crate::reader::{document_scan, read_document};
use vstd::prelude::*;
use vstd::utf8::valid_utf8;

verus! {

/// Where a pass stands in the document.
pub struct ClockView {
    /// Whether the last `<trkpt>` has not been closed yet.
    pub inside_point: bool,
    /// Whether the last `<time>` inside a point has not been closed yet.
    pub inside_time: bool,
    /// The text gathered in the last `<time>` inside a point.
    pub time_text: Seq<u8>,
}

/// The clock before the first event.
pub open spec fn clock_start() -> ClockView {
    ClockView { inside_point: false, inside_time: false, time_text: Seq::empty() }
}

/// The clock after `event`.
///
/// `<trkpt>` and `</trkpt>` enter and leave a point, and `<trkpt/>` does
/// both at once. Inside a point, `<time>` starts a new text, `</time>` ends
/// it, and text that is UTF-8 is gathered while a `<time>` is open.
pub open spec fn clock_step(clock: ClockView, event: EventView) -> ClockView {
    if is_tag(event, EventKind::Start, trkpt_name()) {
        ClockView { inside_point: true, ..clock }
    } else if is_tag(event, EventKind::End, trkpt_name()) || is_tag(
        event,
        EventKind::Empty,
        trkpt_name(),
    ) {
        ClockView { inside_point: false, ..clock }
    } else if clock.inside_point && is_tag(event, EventKind::Start, time_name()) {
        ClockView { inside_time: true, time_text: Seq::empty(), ..clock }
    } else if clock.inside_point && is_tag(event, EventKind::End, time_name()) {
        ClockView { inside_time: false, ..clock }
    } else if clock.inside_point && clock.inside_time && event.kind == EventKind::Text
        && valid_utf8(event.text) {
        ClockView { time_text: clock.time_text + event.text, ..clock }
    } else {
        clock
    }
}

/// Whether `event` closes a `<time>` inside a point.
pub open spec fn clock_strikes(clock: ClockView, event: EventView) -> bool {
    clock.inside_point && is_tag(event, EventKind::End, time_name())
}

/// The time that `event` completes: where it closes a `<time>` inside a
/// point, the instant written in the text gathered, if it is one.
pub open spec fn clock_reading(clock: ClockView, event: EventView) -> Option<Instant> {
    if clock_strikes(clock, event) {
        iso8601_instant(clock.time_text)
    } else {
        None
    }
}

/// The clock after all of `events`.
pub open spec fn clock_run(events: Seq<EventView>) -> ClockView
    decreases events.len(),
{
    if events.len() == 0 {
        clock_start()
    } else {
        clock_step(clock_run(events.drop_last()), events.last())
    }
}

/// The times that the track points of a document give, in document order:
/// one for each `<time>` inside a point whose text is an instant.
pub open spec fn point_times(events: Seq<EventView>) -> Seq<Instant>
    decreases events.len(),
{
    if events.len() == 0 {
        Seq::empty()
    } else {
        let before = point_times(events.drop_last());
        match clock_reading(clock_run(events.drop_last()), events.last()) {
            Some(t) => before.push(t),
            None => before,
        }
    }
}

/// Whether `earliest` is the minimum of `times`: `None` for no times at
/// all, else one of them that none of them lies before.
pub open spec fn is_earliest(times: Seq<Instant>, earliest: Option<Instant>) -> bool {
    match earliest {
        None => times.len() == 0,
        Some(m) => {
            &&& times.contains(m)
            &&& forall|i: int| 0 <= i < times.len() ==> m.nanos <= (#[trigger] times[i]).nanos
        },
    }
}

/// The minimum of `times`: `None` for no times at all.
pub open spec fn earliest_of(times: Seq<Instant>) -> Option<Instant> {
    if times.len() == 0 {
        None
    } else {
        Some(choose|m: Instant| is_earliest(times, Some(m)))
    }
}

/// The earliest time among the track points of a document.
pub open spec fn minimum_time(events: Seq<EventView>) -> Option<Instant> {
    earliest_of(point_times(events))
}

/// A sequence of times has one minimum and no other.
pub proof fn lemma_earliest_is_unique(times: Seq<Instant>, earliest: Option<Instant>)
    requires
        is_earliest(times, earliest),
    ensures
        earliest == earliest_of(times),
{
    match earliest {
        None => {},
        Some(m) => {
            assert(times.len() > 0);
            let chosen = choose|c: Instant| is_earliest(times, Some(c));
            assert(is_earliest(times, Some(chosen)));
            let i = choose|i: int| 0 <= i < times.len() && times[i] == m;
            let j = choose|j: int| 0 <= j < times.len() && times[j] == chosen;
            assert(chosen.nanos <= times[i].nanos);
            assert(m.nanos <= times[j].nanos);
        },
    }
}

/// The earlier of a minimum so far and a new reading.
pub open spec fn earlier_of(earliest: Option<Instant>, reading: Option<Instant>) -> Option<
    Instant,
> {
    match (earliest, reading) {
        (Some(m), Some(t)) => if t.nanos < m.nanos {
            Some(t)
        } else {
            Some(m)
        },
        (None, Some(t)) => Some(t),
        (_, None) => earliest,
    }
}

/// The minimum of some times stays the minimum when a reading is added,
/// if the earlier of the two is taken.
pub proof fn lemma_earlier_of_keeps_minimum(
    times: Seq<Instant>,
    earliest: Option<Instant>,
    reading: Option<Instant>,
)
    requires
        is_earliest(times, earliest),
    ensures
        is_earliest(
            match reading {
                Some(t) => times.push(t),
                None => times,
            },
            earlier_of(earliest, reading),
        ),
{
    match reading {
        None => {},
        Some(t) => {
            let more = times.push(t);
            assert(more[times.len() as int] == t);
            match earliest {
                None => {},
                Some(m) => {
                    let i = choose|i: int| 0 <= i < times.len() && times[i] == m;
                    assert(more[i] == m);
                },
            }
        },
    }
}

/// The clock that a pass threads through a document.
pub struct TimeClock {
    inside_point: bool,
    inside_time: bool,
    time_text: Vec<u8>,
}

impl View for TimeClock {
    type V = ClockView;

    closed spec fn view(&self) -> ClockView {
        ClockView {
            inside_point: self.inside_point,
            inside_time: self.inside_time,
            time_text: self.time_text@,
        }
    }
}

impl TimeClock {
    /// A clock at the start of a document.
    pub fn new() -> (clock: TimeClock)
        ensures
            clock@ == clock_start(),
    {
        TimeClock { inside_point: false, inside_time: false, time_text: Vec::new() }
    }

    /// Takes one event and returns the time that it completes.
    pub fn observe(&mut self, event: &XmlEvent) -> (reading: Option<Instant>)
        ensures
            final(self)@ == clock_step(old(self)@, event@),
            reading == clock_reading(old(self)@, event@),
    {
        let starts = event.kind == EventKind::Start;
        let ends = event.kind == EventKind::End;
        if starts && is_trkpt(&event.name) {
            self.inside_point = true;
            None
        } else if (ends || event.kind == EventKind::Empty) && is_trkpt(&event.name) {
            self.inside_point = false;
            None
        } else if self.inside_point && starts && is_time(&event.name) {
            self.inside_time = true;
            self.time_text.clear();
            None
        } else if self.inside_point && ends && is_time(&event.name) {
            self.inside_time = false;
            parse_iso8601(&self.time_text)
        } else {
            if self.inside_point && self.inside_time && event.kind == EventKind::Text && is_utf8(
                &event.text,
            ) {
                append_bytes(&mut self.time_text, &event.text);
            }
            None
        }
    }
}

/// The earlier of a minimum so far and a new reading. Of two equal
/// instants the one found first stays.
pub fn earlier(earliest: Option<Instant>, reading: Option<Instant>) -> (r: Option<Instant>)
    ensures
        r == earlier_of(earliest, reading),
{
    match reading {
        None => earliest,
        Some(t) => match earliest {
            None => Some(t),
            Some(m) => if t.nanos < m.nanos {
                Some(t)
            } else {
                Some(m)
            },
        },
    }
}

/// The earliest time among the track points of a document, given as its
/// events; `None` if no point has a time that can be read.
pub fn minimum_time_in(events: &[XmlEvent]) -> (earliest: Option<Instant>)
    ensures
        is_earliest(point_times(events_view(events@)), earliest),
        earliest == minimum_time(events_view(events@)),
{
    let ghost all = events_view(events@);
    let mut clock = TimeClock::new();
    let mut earliest: Option<Instant> = None;
    let mut i: usize = 0;
    assert(all.take(0) =~= Seq::<EventView>::empty());
    while i < events.len()
        invariant
            i <= events.len(),
            all == events_view(events@),
            clock@ == clock_run(all.take(i as int)),
            is_earliest(point_times(all.take(i as int)), earliest),
        decreases events.len() - i,
    {
        let reading = clock.observe(&events[i]);
        proof {
            let now = all.take(i + 1);
            assert(now.drop_last() =~= all.take(i as int));
            assert(now.last() == events@[i as int]@);
            lemma_earlier_of_keeps_minimum(point_times(all.take(i as int)), earliest, reading);
        }
        earliest = earlier(earliest, reading);
        i += 1;
    }
    assert(all.take(events.len() as int) =~= all);
    proof {
        lemma_earliest_is_unique(point_times(all), earliest);
    }
    earliest
}

/// The earliest time among the track points of a document; `None` if no
/// point has a time that can be read, or if there is no point.
///
/// A `<time>` whose text is no instant is passed over. Fails exactly when
/// the document cannot be read to its end.
pub fn find_minimum_time(input: &[u8]) -> (r: Result<Option<Instant>, XmlError>)
    ensures
        match r {
            Ok(earliest) => {
                &&& document_scan(input@).failure is None
                &&& is_earliest(point_times(document_scan(input@).events), earliest)
                &&& earliest == minimum_time(document_scan(input@).events)
            },
            Err(e) => document_scan(input@).failure == Some(e@),
        },
{
    match read_document(input) {
        Err(e) => Err(e),
        Ok(events) => Ok(minimum_time_in(events.as_slice())),
    }
}

/// One sample of a track: where and when.
///
/// The coordinates are kept as the decimal numbers that the document gives,
/// so that nothing is lost or rounded on the way.
#[derive(Clone, Debug, PartialEq, Eq)]
pub struct TrackPoint {
    /// The latitude in degrees, as decimal text.
    pub lat: Vec<u8>,
    /// The longitude in degrees, as decimal text.
    pub lon: Vec<u8>,
    /// The time at which the sample was taken.
    pub time: Instant,
}

/// The mathematical value of a [`TrackPoint`].
pub struct TrackPointView {
    /// The latitude in degrees, as decimal text.
    pub lat: Seq<u8>,
    /// The longitude in degrees, as decimal text.
    pub lon: Seq<u8>,
    /// The time at which the sample was taken.
    pub time: Instant,
}

impl View for TrackPoint {
    type V = TrackPointView;

    open spec fn view(&self) -> TrackPointView {
        TrackPointView { lat: self.lat@, lon: self.lon@, time: self.time }
    }
}

/// The values of a sequence of track points.
pub open spec fn track_points_view(points: Seq<TrackPoint>) -> Seq<TrackPointView> {
    Seq::new(points.len(), |i: int| points[i]@)
}

/// The bytes of `lat`, the name of the latitude attribute.
pub open spec fn lat_name() -> Seq<u8> {
    seq![0x6cu8, 0x61u8, 0x74u8]
}

/// The bytes of `lon`, the name of the longitude attribute.
pub open spec fn lon_name() -> Seq<u8> {
    seq![0x6cu8, 0x6fu8, 0x6eu8]
}

/// The coordinate that the attribute `key` gives among `attributes`.
///
/// The last attribute of that name whose value is UTF-8 decides: its value
/// if that is a decimal number, nothing if not. Without such an attribute
/// there is no coordinate.
pub open spec fn coordinate(attributes: Seq<AttributeView>, key: Seq<u8>) -> Option<Seq<u8>>
    decreases attributes.len(),
{
    if attributes.len() == 0 {
        None
    } else {
        let last = attributes.last();
        if last.key == key && valid_utf8(last.value) {
            if is_decimal(last.value) {
                Some(last.value)
            } else {
                None
            }
        } else {
            coordinate(attributes.drop_last(), key)
        }
    }
}

/// What the extractor knows of the current point, and the samples it has
/// found.
pub struct ExtractView {
    /// The latitude of the current point, if its tag gave one.
    pub lat: Option<Seq<u8>>,
    /// The longitude of the current point, if its tag gave one.
    pub lon: Option<Seq<u8>>,
    /// The time of the current point, once one has been read.
    pub time: Option<Instant>,
    /// The samples found so far, in document order.
    pub points: Seq<TrackPointView>,
}

/// The extractor before the first event.
pub open spec fn extract_start() -> ExtractView {
    ExtractView { lat: None, lon: None, time: None, points: Seq::empty() }
}

/// The extractor after `event`, where `reading` is the time that the event
/// completes.
///
/// A `<trkpt>` starts a point with the coordinates of its `lat` and `lon`
/// attributes and without a time. A time that is read becomes the time of
/// the point. A `</trkpt>` adds the point to the samples if it has both
/// coordinates and a time. A `<trkpt/>` starts a point and ends it at once:
/// it has no time, so it adds nothing.
pub open spec fn extract_step(
    state: ExtractView,
    event: EventView,
    reading: Option<Instant>,
) -> ExtractView {
    if is_tag(event, EventKind::Start, trkpt_name()) || is_tag(
        event,
        EventKind::Empty,
        trkpt_name(),
    ) {
        ExtractView {
            lat: coordinate(event.attributes, lat_name()),
            lon: coordinate(event.attributes, lon_name()),
            time: None,
            ..state
        }
    } else if is_tag(event, EventKind::End, trkpt_name()) {
        if state.lat is Some && state.lon is Some && state.time is Some {
            ExtractView {
                points: state.points.push(
                    TrackPointView {
                        lat: state.lat->0,
                        lon: state.lon->0,
                        time: state.time->0,
                    },
                ),
                ..state
            }
        } else {
            state
        }
    } else if reading is Some {
        ExtractView { time: reading, ..state }
    } else {
        state
    }
}

/// The extractor after all of `events`.
pub open spec fn extract_run(events: Seq<EventView>) -> ExtractView
    decreases events.len(),
{
    if events.len() == 0 {
        extract_start()
    } else {
        let before = events.drop_last();
        extract_step(
            extract_run(before),
            events.last(),
            clock_reading(clock_run(before), events.last()),
        )
    }
}

/// The samples of a document, in document order: one for each track point
/// that has a latitude, a longitude and a time.
pub open spec fn samples_of(events: Seq<EventView>) -> Seq<TrackPointView> {
    extract_run(events).points
}

/// The coordinate that the attribute `key` gives among `attributes`.
pub fn find_coordinate(attributes: &[XmlAttribute], key: &[u8]) -> (r: Option<Vec<u8>>)
    ensures
        match r {
            Some(text) => coordinate(attributes_view(attributes@), key@) == Some(text@),
            None => coordinate(attributes_view(attributes@), key@) is None,
        },
{
    let ghost all = attributes_view(attributes@);
    let mut i: usize = attributes.len();
    assert(all.take(i as int) =~= all);
    while i > 0
        invariant
            i <= attributes.len(),
            all == attributes_view(attributes@),
            coordinate(all, key@) == coordinate(all.take(i as int), key@),
        decreases i,
    {
        let attribute = &attributes[i - 1];
        proof {
            let now = all.take(i as int);
            assert(now.last() == attribute@);
            assert(now.drop_last() =~= all.take(i - 1));
        }
        if bytes_equal(&attribute.key, key) && is_utf8(&attribute.value) {
            return if is_decimal_text(&attribute.value) {
                Some(copy_bytes(&attribute.value))
            } else {
                None
            };
        }
        i -= 1;
    }
    None
}

/// The record that the extractor threads through a document.
pub struct Extractor {
    clock: TimeClock,
    lat: Option<Vec<u8>>,
    lon: Option<Vec<u8>>,
    time: Option<Instant>,
    points: Vec<TrackPoint>,
}

/// The value of an optional byte string.
pub open spec fn optional_bytes(bytes: Option<Vec<u8>>) -> Option<Seq<u8>> {
    match bytes {
        Some(b) => Some(b@),
        None => None,
    }
}

impl View for Extractor {
    type V = ExtractView;

    closed spec fn view(&self) -> ExtractView {
        ExtractView {
            lat: optional_bytes(self.lat),
            lon: optional_bytes(self.lon),
            time: self.time,
            points: track_points_view(self.points@),
        }
    }
}

impl Extractor {
    /// The clock of this extractor.
    pub closed spec fn clock(&self) -> ClockView {
        self.clock@
    }

    /// An extractor at the start of a document.
    pub fn new() -> (extractor: Extractor)
        ensures
            extractor@ == extract_start(),
            extractor.clock() == clock_start(),
    {
        let extractor = Extractor {
            clock: TimeClock::new(),
            lat: None,
            lon: None,
            time: None,
            points: Vec::new(),
        };
        assert(extractor@.points =~= Seq::empty());
        extractor
    }

    /// Takes one event.
    pub fn step(&mut self, event: &XmlEvent)
        ensures
            final(self).clock() == clock_step(old(self).clock(), event@),
            final(self)@ == extract_step(
                old(self)@,
                event@,
                clock_reading(old(self).clock(), event@),
            ),
    {
        let reading = self.clock.observe(event);
        self.record(event, reading);
    }

    /// Takes one event, given the time that it completes, and leaves the
    /// clock as it is.
    pub fn record(&mut self, event: &XmlEvent, reading: Option<Instant>)
        ensures
            final(self).clock() == old(self).clock(),
            final(self)@ == extract_step(old(self)@, event@, reading),
    {
        let ghost before = self@;
        if (event.kind == EventKind::Start || event.kind == EventKind::Empty) && is_trkpt(
            &event.name,
        ) {
            let lat: [u8; 3] = [0x6c, 0x61, 0x74];
            let lon: [u8; 3] = [0x6c, 0x6f, 0x6e];
            assert(lat@ =~= lat_name());
            assert(lon@ =~= lon_name());
            self.lat = find_coordinate(event.attributes.as_slice(), lat.as_slice());
            self.lon = find_coordinate(event.attributes.as_slice(), lon.as_slice());
            self.time = None;
        } else if event.kind == EventKind::End && is_trkpt(&event.name) {
            match (&self.lat, &self.lon, self.time) {
                (Some(lat), Some(lon), Some(time)) => {
                    let point = TrackPoint { lat: copy_bytes(lat), lon: copy_bytes(lon), time };
                    self.points.push(point);
                    assert(track_points_view(self.points@) =~= before.points.push(point@));
                },
                _ => {},
            }
        } else if reading.is_some() {
            self.time = reading;
        }
    }

    /// The samples found.
    pub fn finish(self) -> (points: Vec<TrackPoint>)
        ensures
            track_points_view(points@) == self@.points,
    {
        self.points
    }
}

/// The samples of a document, given as its events.
pub fn track_points_in(events: &[XmlEvent]) -> (points: Vec<TrackPoint>)
    ensures
        track_points_view(points@) == samples_of(events_view(events@)),
{
    let ghost all = events_view(events@);
    let mut extractor = Extractor::new();
    let mut i: usize = 0;
    assert(all.take(0) =~= Seq::<EventView>::empty());
    while i < events.len()
        invariant
            i <= events.len(),
            all == events_view(events@),
            extractor.clock() == clock_run(all.take(i as int)),
            extractor@ == extract_run(all.take(i as int)),
        decreases events.len() - i,
    {
        extractor.step(&events[i]);
        proof {
            let now = all.take(i + 1);
            assert(now.drop_last() =~= all.take(i as int));
            assert(now.last() == events@[i as int]@);
        }
        i += 1;
    }
    assert(all.take(events.len() as int) =~= all);
    extractor.finish()
}

/// The samples of a document, in document order.
///
/// A track point gives a sample if its `lat` and `lon` attributes are
/// decimal numbers and a `<time>` of it holds an instant; any other point
/// gives nothing. Fails exactly when the document cannot be read to its
/// end.
pub fn extract_track_points(input: &[u8]) -> (r: Result<Vec<TrackPoint>, XmlError>)
    ensures
        match r {
            Ok(points) => {
                &&& document_scan(input@).failure is None
                &&& track_points_view(points@) == samples_of(document_scan(input@).events)
            },
            Err(e) => document_scan(input@).failure == Some(e@),
        },
{
    match read_document(input) {
        Err(e) => Err(e),
        Ok(events) => Ok(track_points_in(events.as_slice())),
    }
}

} // verus!
