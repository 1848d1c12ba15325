use gpxwrench::event::{EventKind, XmlEvent};
use gpxwrench::filter::{
    filter_document, filter_events, filter_xml_by_time_range, filter_xml_by_time_to_writer,
    PointFilter,
};
use gpxwrench::instant::{parse_instant, Instant, TimeWindow};
use gpxwrench::reader::read_document;

const HEAD: &str = "<?xml version=\"1.0\" encoding=\"UTF-8\"?>\n<gpx version=\"1.1\" creator=\"test\">\n  <trk>\n    <trkseg>";
const TAIL: &str = "\n    </trkseg>\n  </trk>\n</gpx>";
/// The end of a document whose last point was dropped: the whitespace
/// before that point stays, the whitespace after it goes.
const TAIL_AFTER_DROP: &str = "\n      </trkseg>\n  </trk>\n</gpx>";

/// A track point at the given second of 2023-01-01T10:00Z, indented as in a
/// segment.
fn point(second: u32) -> String {
    format!(
        "\n      <trkpt lat=\"37.{:04}\" lon=\"-122.4194\">\n        <ele>100</ele>\n        <time>2023-01-01T10:00:{:02}Z</time>\n      </trkpt>",
        second, second
    )
}

/// A document with one track point at each of the given seconds.
fn track(seconds: &[u32]) -> String {
    let mut text = String::from(HEAD);
    for second in seconds {
        text.push_str(&point(*second));
    }
    text.push_str(TAIL);
    text
}

fn at(second: u32) -> Instant {
    parse_instant(&format!("2023-01-01T10:00:{:02}Z", second)).unwrap()
}

fn filtered(input: &str, window: TimeWindow) -> String {
    String::from_utf8(filter_document(input.as_bytes(), window).unwrap()).unwrap()
}

fn count(text: &str, pattern: &str) -> usize {
    text.matches(pattern).count()
}

#[test]
fn parse_instant_reads_seconds_since_the_epoch() {
    assert_eq!(at(0).nanos, 1_672_567_200_000_000_000);
    assert_eq!(at(2).nanos - at(0).nanos, 2_000_000_000);
}

#[test]
fn parse_instant_takes_the_offset_into_account() {
    let utc = parse_instant("2023-01-01T10:00:00Z").unwrap();
    let east = parse_instant("2023-01-01T12:00:00+02:00").unwrap();
    let west = parse_instant("2023-01-01T05:30:00-04:30").unwrap();
    assert_eq!(utc, east);
    assert_eq!(utc, west);
}

#[test]
fn parse_instant_keeps_fractions_of_a_second() {
    let t = parse_instant("2023-01-01T10:00:00.25Z").unwrap();
    assert_eq!(t.nanos, 1_672_567_200_250_000_000);
}

#[test]
fn parse_instant_rejects_what_is_no_instant() {
    assert_eq!(parse_instant(""), None);
    assert_eq!(parse_instant("invalid-time"), None);
    assert_eq!(parse_instant("2023-01-01"), None);
    assert_eq!(parse_instant("2023-01-01T10:00:00"), None);
}

#[test]
fn range_keeps_the_first_two_of_three_points() {
    let input = track(&[0, 2, 10]);
    let out = filtered(&input, TimeWindow::Range { start: at(0), end: at(3) });
    let expected = format!("{}{}{}{}", HEAD, point(0), point(2), TAIL_AFTER_DROP);
    assert_eq!(out, expected);
}

#[test]
fn threshold_keeps_the_first_two_of_three_points() {
    let input = track(&[0, 2, 10]);
    let out = filtered(&input, TimeWindow::Until { threshold: at(5) });
    let expected = format!("{}{}{}{}", HEAD, point(0), point(2), TAIL_AFTER_DROP);
    assert_eq!(out, expected);
}

#[test]
fn window_holding_every_point_writes_the_document_as_it_was() {
    let input = track(&[0, 2, 10, 30, 59]);
    let out = filtered(&input, TimeWindow::Range { start: at(0), end: at(59).checked_add(gpxwrench::instant::Duration::seconds(1)).unwrap() });
    assert_eq!(out, input);
    let out = filtered(&input, TimeWindow::Until { threshold: at(59) });
    assert_eq!(out, input);
}

#[test]
fn window_holding_no_point_leaves_the_structure_alone() {
    let input = track(&[0, 2, 10]);
    let out = filtered(&input, TimeWindow::Range { start: at(20), end: at(30) });
    assert_eq!(count(&out, "<trkpt"), 0);
    assert_eq!(count(&out, "</trkpt>"), 0);
    // The whitespace before the first point stays, that after each dropped
    // point goes.
    let expected = format!("{}{}", HEAD, TAIL_AFTER_DROP);
    assert_eq!(out, expected);
}

#[test]
fn empty_window_leaves_no_point() {
    let input = track(&[0, 2, 10]);
    let out = filtered(&input, TimeWindow::Range { start: at(2), end: at(2) });
    assert_eq!(count(&out, "<trkpt"), 0);
    let out = filtered(&input, TimeWindow::Range { start: at(10), end: at(0) });
    assert_eq!(count(&out, "<trkpt"), 0);
}

#[test]
fn start_of_a_range_is_kept() {
    let input = track(&[0, 2, 10]);
    let out = filtered(&input, TimeWindow::Range { start: at(2), end: at(3) });
    let expected = format!("{}{}{}", HEAD, point(2), TAIL_AFTER_DROP);
    assert_eq!(out, expected);
    assert_eq!(count(&out, "<trkpt"), 1);
    assert!(out.contains("2023-01-01T10:00:02Z"));
}

#[test]
fn end_of_a_range_is_dropped() {
    let input = track(&[0, 2, 10]);
    let out = filtered(&input, TimeWindow::Range { start: at(0), end: at(2) });
    assert_eq!(count(&out, "<trkpt"), 1);
    assert!(out.contains("2023-01-01T10:00:00Z"));
    assert!(!out.contains("2023-01-01T10:00:02Z"));
}

#[test]
fn threshold_itself_is_kept() {
    let input = track(&[0, 2, 10]);
    let out = filtered(&input, TimeWindow::Until { threshold: at(2) });
    assert_eq!(count(&out, "<trkpt"), 2);
    assert!(out.contains("2023-01-01T10:00:02Z"));
    assert!(!out.contains("2023-01-01T10:00:10Z"));
}

#[test]
fn same_instant_is_kept_as_threshold_and_dropped_as_end() {
    let input = track(&[5]);
    let mut as_threshold = Vec::new();
    filter_xml_by_time_to_writer(input.as_bytes(), at(5), None, &mut as_threshold).unwrap();
    let mut as_end = Vec::new();
    filter_xml_by_time_to_writer(input.as_bytes(), at(0), Some(at(5)), &mut as_end).unwrap();
    assert_eq!(count(std::str::from_utf8(&as_threshold).unwrap(), "<trkpt"), 1);
    assert_eq!(count(std::str::from_utf8(&as_end).unwrap(), "<trkpt"), 0);
}

#[test]
fn point_without_time_is_dropped_by_every_window() {
    let input = format!(
        "{}\n      <trkpt lat=\"1\" lon=\"2\">\n        <ele>100</ele>\n      </trkpt>{}{}",
        HEAD,
        point(2),
        TAIL
    );
    let everything = TimeWindow::Until { threshold: Instant { nanos: i128::MAX } };
    let out = filtered(&input, everything);
    let expected = format!("{}{}{}", HEAD, point(2), TAIL);
    assert_eq!(out, expected);
}

#[test]
fn point_with_unreadable_time_is_dropped() {
    let input = format!(
        "{}\n      <trkpt lat=\"1\" lon=\"2\"><time>invalid-time</time></trkpt>{}{}",
        HEAD,
        point(2),
        TAIL
    );
    let everything = TimeWindow::Until { threshold: Instant { nanos: i128::MAX } };
    let out = filtered(&input, everything);
    let expected = format!("{}{}{}", HEAD, point(2), TAIL);
    assert_eq!(out, expected);
}

#[test]
fn later_unreadable_time_leaves_the_earlier_time_of_a_point() {
    let input = format!(
        "{}<trkpt lat=\"1\" lon=\"2\"><time>2023-01-01T10:00:02Z</time><time>soon</time></trkpt>{}",
        HEAD, TAIL
    );
    let out = filtered(&input, TimeWindow::Range { start: at(2), end: at(3) });
    assert_eq!(out, input);
}

#[test]
fn later_time_of_a_point_replaces_the_earlier() {
    let input = format!(
        "{}<trkpt lat=\"1\" lon=\"2\"><time>2023-01-01T10:00:02Z</time><time>2023-01-01T10:00:08Z</time></trkpt>{}",
        HEAD, TAIL
    );
    let out = filtered(&input, TimeWindow::Range { start: at(2), end: at(3) });
    assert_eq!(count(&out, "<trkpt"), 0);
    let out = filtered(&input, TimeWindow::Range { start: at(8), end: at(9) });
    assert_eq!(out, input);
}

#[test]
fn time_outside_a_point_does_not_count() {
    let input = format!(
        "<gpx><metadata><time>2023-01-01T10:00:02Z</time></metadata><trk><trkseg><trkpt lat=\"1\" lon=\"2\"></trkpt></trkseg></trk></gpx>"
    );
    let out = filtered(&input, TimeWindow::Until { threshold: at(59) });
    assert_eq!(
        out,
        "<gpx><metadata><time>2023-01-01T10:00:02Z</time></metadata><trk><trkseg></trkseg></trk></gpx>"
    );
}

#[test]
fn time_text_in_pieces_is_put_together() {
    // A comment splits the text of the time element in two.
    let input = "<trkseg><trkpt><time>2023-01-01T<!-- noon -->10:00:02Z</time></trkpt></trkseg>";
    let out = filtered(input, TimeWindow::Range { start: at(2), end: at(3) });
    assert_eq!(out, input);
    let out = filtered(input, TimeWindow::Range { start: at(3), end: at(4) });
    assert_eq!(out, "<trkseg></trkseg>");
}

#[test]
fn whitespace_after_a_dropped_point_is_dropped_inside_a_segment() {
    let input = "<trkseg>\n <trkpt><time>2023-01-01T10:00:10Z</time></trkpt>\n <trkpt><time>2023-01-01T10:00:02Z</time></trkpt>\n</trkseg>";
    let out = filtered(input, TimeWindow::Until { threshold: at(5) });
    assert_eq!(
        out,
        "<trkseg>\n <trkpt><time>2023-01-01T10:00:02Z</time></trkpt>\n</trkseg>"
    );
}

#[test]
fn whitespace_after_a_dropped_point_stays_outside_a_segment() {
    let input = "<trk>\n <trkpt><time>2023-01-01T10:00:10Z</time></trkpt>\n <name>n</name>\n</trk>";
    let out = filtered(input, TimeWindow::Until { threshold: at(5) });
    assert_eq!(out, "<trk>\n \n <name>n</name>\n</trk>");
}

#[test]
fn text_after_a_dropped_point_is_written() {
    let input = "<trkseg><trkpt><time>2023-01-01T10:00:10Z</time></trkpt> x <b/> </trkseg>";
    let out = filtered(input, TimeWindow::Until { threshold: at(5) });
    assert_eq!(out, "<trkseg> x <b/> </trkseg>");
}

#[test]
fn markup_after_a_dropped_point_ends_the_suppression() {
    let input = "<trkseg><trkpt><time>2023-01-01T10:00:10Z</time></trkpt>\n<!-- c -->\n<e>\n</e>\n</trkseg>";
    let out = filtered(input, TimeWindow::Until { threshold: at(5) });
    assert_eq!(out, "<trkseg><!-- c -->\n<e>\n</e>\n</trkseg>");
}

#[test]
fn nested_markup_of_a_kept_point_is_written_in_order() {
    let input = "<trkseg><trkpt lat=\"1\" lon=\"2\"><ele>1</ele><time>2023-01-01T10:00:02Z</time><extensions><a:b xmlns:a=\"u\"><a:c>7 &amp; 8</a:c><![CDATA[<raw>]]><?pi x?><d/></a:b></extensions></trkpt></trkseg>";
    let out = filtered(input, TimeWindow::Until { threshold: at(5) });
    assert_eq!(out, input);
    let out = filtered(input, TimeWindow::Until { threshold: at(1) });
    assert_eq!(out, "<trkseg></trkseg>");
}

#[test]
fn markup_outside_points_passes_through() {
    let input = "<?xml version=\"1.0\"?>\n<!DOCTYPE gpx>\n<!-- made by hand -->\n<gpx><metadata><name>a &lt; b</name><![CDATA[x]]><?pi y?></metadata><wpt lat=\"1\" lon=\"2\"/></gpx>\n";
    let out = filtered(input, TimeWindow::Until { threshold: at(5) });
    assert_eq!(out, input);
}

#[test]
fn empty_element_point_is_no_point() {
    let input = "<trkseg><trkpt lat=\"1\" lon=\"2\"/></trkseg>";
    let out = filtered(input, TimeWindow::Range { start: at(0), end: at(0) });
    assert_eq!(out, "<trkseg></trkseg>");
}

#[test]
fn point_written_as_one_tag_is_dropped_by_every_window() {
    let input = "<trkseg><trkpt lat='1.0' lon='2.0'/></trkseg>";
    let start = parse_instant("2000-01-01T00:00:00Z").unwrap();
    let end = parse_instant("2100-01-01T00:00:00Z").unwrap();
    let mut output = Vec::new();
    filter_xml_by_time_to_writer(input.as_bytes(), start, Some(end), &mut output).unwrap();
    assert_eq!(output, b"<trkseg></trkseg>");
    let everything = TimeWindow::Until { threshold: Instant { nanos: i128::MAX } };
    assert_eq!(filtered(input, everything), "<trkseg></trkseg>");
}

#[test]
fn whitespace_after_a_point_written_as_one_tag_is_dropped() {
    let input = format!("{}\n      <trkpt lat=\"1\" lon=\"2\"/>{}{}", HEAD, point(2), TAIL);
    let out = filtered(&input, TimeWindow::Until { threshold: at(5) });
    // The whitespace before the dropped point stays and that after it goes,
    // so the kept point follows without its own indentation.
    let kept = point(2);
    let expected = format!("{}\n      {}{}", HEAD, kept.trim_start(), TAIL);
    assert_eq!(out, expected);
}

#[test]
fn other_elements_written_as_one_tag_pass_through() {
    let input = "<gpx><wpt lat=\"1\" lon=\"2\"/><trkseg><trkptx/><time/></trkseg></gpx>";
    let out = filtered(input, TimeWindow::Range { start: at(0), end: at(0) });
    assert_eq!(out, input);
}

#[test]
fn empty_input_gives_empty_output() {
    let out = filter_document(b"", TimeWindow::Until { threshold: at(5) }).unwrap();
    assert!(out.is_empty());
}

#[test]
fn unclosed_point_at_the_end_is_not_written() {
    // The reader does not mind a document that stops short.
    let input = "<trkseg><trkpt><time>2023-01-01T10:00:02Z</time>";
    let out = filtered(input, TimeWindow::Until { threshold: at(5) });
    assert_eq!(out, "<trkseg>");
}

#[test]
fn malformed_document_fails_with_the_position() {
    let input = "<gpx><trk></gpx>";
    let error = filter_document(input.as_bytes(), TimeWindow::Until { threshold: at(5) })
        .unwrap_err();
    assert_eq!(error.position, 16);
    assert!(error.detail.contains("IllFormed"), "{}", error.detail);
    assert!(error.detail.contains("MismatchedEndTag"), "{}", error.detail);
}

#[test]
fn failure_leaves_the_output_untouched() {
    let input = format!("{}{}</oops>", HEAD, point(2));
    let mut output = b"before".to_vec();
    let result = filter_xml_by_time_to_writer(input.as_bytes(), at(5), None, &mut output);
    assert!(result.is_err());
    assert_eq!(output, b"before");
    assert!(filter_xml_by_time_range(input.as_bytes(), at(0), at(5)).is_err());
}

#[test]
fn output_is_appended_to_what_is_there() {
    let input = track(&[0, 2, 10]);
    let mut output = b"before".to_vec();
    filter_xml_by_time_to_writer(input.as_bytes(), at(0), Some(at(3)), &mut output).unwrap();
    let expected = format!("before{}{}{}{}", HEAD, point(0), point(2), TAIL_AFTER_DROP);
    assert_eq!(String::from_utf8(output).unwrap(), expected);
}

#[test]
fn range_function_gives_what_the_writer_function_gives() {
    let input = track(&[0, 2, 10]);
    let direct = filter_xml_by_time_range(input.as_bytes(), at(2), at(11)).unwrap();
    let mut written = Vec::new();
    filter_xml_by_time_to_writer(input.as_bytes(), at(2), Some(at(11)), &mut written).unwrap();
    assert_eq!(direct, written);
    assert_eq!(count(std::str::from_utf8(&direct).unwrap(), "<trkpt"), 2);
}

#[test]
fn read_document_tells_the_events_apart() {
    let events = read_document(b"<a x=\"1\" y='2'>t<!--c--><b/></a>").unwrap();
    assert_eq!(events.len(), 5);
    assert_eq!(events[0].kind, EventKind::Start);
    assert_eq!(events[0].name, b"a");
    assert_eq!(events[0].markup, b"<a x=\"1\" y='2'>");
    assert_eq!(events[0].attributes.len(), 2);
    assert_eq!(events[0].attributes[0].key, b"x");
    assert_eq!(events[0].attributes[0].value, b"1");
    assert_eq!(events[0].attributes[1].key, b"y");
    assert_eq!(events[0].attributes[1].value, b"2");
    assert_eq!(events[1].kind, EventKind::Text);
    assert_eq!(events[1].text, b"t");
    assert_eq!(events[1].markup, b"t");
    assert_eq!(events[2].kind, EventKind::Other);
    assert_eq!(events[2].markup, b"<!--c-->");
    assert_eq!(events[3].kind, EventKind::Empty);
    assert_eq!(events[3].markup, b"<b/>");
    assert_eq!(events[3].name, b"b");
    assert!(events[3].attributes.is_empty());
    assert_eq!(events[4].kind, EventKind::End);
    assert_eq!(events[4].name, b"a");
    assert_eq!(events[4].markup, b"</a>");
    assert!(events[4].attributes.is_empty());
}

#[test]
fn read_document_hands_over_the_name_and_attributes_of_an_empty_tag() {
    let events = read_document(b"<trkpt lat='1.0' lon=\"2.0\"/><?pi x?><![CDATA[c]]>").unwrap();
    assert_eq!(events.len(), 3);
    assert_eq!(events[0].kind, EventKind::Empty);
    assert_eq!(events[0].name, b"trkpt");
    assert!(events[0].text.is_empty());
    assert_eq!(events[0].attributes.len(), 2);
    assert_eq!(events[0].attributes[0].key, b"lat");
    assert_eq!(events[0].attributes[0].value, b"1.0");
    assert_eq!(events[0].attributes[1].key, b"lon");
    assert_eq!(events[0].attributes[1].value, b"2.0");
    assert_eq!(events[0].markup, b"<trkpt lat='1.0' lon=\"2.0\"/>");
    assert_eq!(events[1].kind, EventKind::Other);
    assert!(events[1].name.is_empty());
    assert_eq!(events[1].markup, b"<?pi x?>");
    assert_eq!(events[2].kind, EventKind::Other);
    assert!(events[2].text.is_empty());
    assert_eq!(events[2].markup, b"<![CDATA[c]]>");
}

#[test]
fn read_document_fails_on_a_stray_closing_tag() {
    let error = read_document(b"<a></a></b>").unwrap_err();
    assert!(error.detail.contains("IllFormed"), "{}", error.detail);
}

fn tag(kind: EventKind, name: &str) -> XmlEvent {
    let markup = match kind {
        EventKind::Start => format!("<{}>", name),
        EventKind::Empty => format!("<{}/>", name),
        _ => format!("</{}>", name),
    };
    XmlEvent {
        kind,
        name: name.as_bytes().to_vec(),
        text: Vec::new(),
        attributes: Vec::new(),
        markup: markup.into_bytes(),
    }
}

fn text(content: &str) -> XmlEvent {
    XmlEvent {
        kind: EventKind::Text,
        name: Vec::new(),
        text: content.as_bytes().to_vec(),
        attributes: Vec::new(),
        markup: content.as_bytes().to_vec(),
    }
}

#[test]
fn filter_events_works_on_events_made_by_hand() {
    let events = vec![
        tag(EventKind::Start, "trkseg"),
        tag(EventKind::Start, "trkpt"),
        tag(EventKind::Start, "time"),
        text("2023-01-01T10:00:02Z"),
        tag(EventKind::End, "time"),
        tag(EventKind::End, "trkpt"),
        text("\n"),
        tag(EventKind::End, "trkseg"),
    ];
    let kept = filter_events(&events, TimeWindow::Range { start: at(2), end: at(3) });
    assert_eq!(
        String::from_utf8(kept).unwrap(),
        "<trkseg><trkpt><time>2023-01-01T10:00:02Z</time></trkpt>\n</trkseg>"
    );
    let dropped = filter_events(&events, TimeWindow::Range { start: at(3), end: at(4) });
    assert_eq!(String::from_utf8(dropped).unwrap(), "<trkseg></trkseg>");
}

#[test]
fn only_whitespace_directly_after_a_dropped_point_is_dropped() {
    let events = vec![
        tag(EventKind::Start, "trkseg"),
        tag(EventKind::Start, "trkpt"),
        tag(EventKind::End, "trkpt"),
        text(" "),
        text("\n"),
        tag(EventKind::End, "trkseg"),
    ];
    let out = filter_events(&events, TimeWindow::Until { threshold: at(5) });
    assert_eq!(String::from_utf8(out).unwrap(), "<trkseg>\n</trkseg>");
}

#[test]
fn point_written_as_one_tag_inside_a_point_ends_that_point() {
    let events = vec![
        tag(EventKind::Start, "trkseg"),
        tag(EventKind::Start, "trkpt"),
        tag(EventKind::Start, "time"),
        text("2023-01-01T10:00:02Z"),
        tag(EventKind::End, "time"),
        tag(EventKind::Empty, "trkpt"),
        text(" "),
        tag(EventKind::Empty, "ele"),
        tag(EventKind::End, "trkpt"),
        tag(EventKind::End, "trkseg"),
    ];
    let out = filter_events(&events, TimeWindow::Until { threshold: at(5) });
    assert_eq!(String::from_utf8(out).unwrap(), "<trkseg><ele/></trkseg>");
}

#[test]
fn element_written_as_one_tag_inside_a_point_is_held_back_with_it() {
    let events = vec![
        tag(EventKind::Start, "trkpt"),
        tag(EventKind::Empty, "time"),
        tag(EventKind::Empty, "ele"),
        tag(EventKind::Start, "time"),
        text("2023-01-01T10:00:02Z"),
        tag(EventKind::End, "time"),
        tag(EventKind::End, "trkpt"),
    ];
    let kept = filter_events(&events, TimeWindow::Until { threshold: at(5) });
    assert_eq!(
        String::from_utf8(kept).unwrap(),
        "<trkpt><time/><ele/><time>2023-01-01T10:00:02Z</time></trkpt>"
    );
    let dropped = filter_events(&events, TimeWindow::Until { threshold: at(1) });
    assert!(dropped.is_empty());
}

#[test]
fn segment_tags_inside_a_point_are_written_at_once() {
    let events = vec![
        tag(EventKind::Start, "trkpt"),
        tag(EventKind::Start, "trkseg"),
        tag(EventKind::End, "trkseg"),
        tag(EventKind::End, "trkpt"),
    ];
    let out = filter_events(&events, TimeWindow::Until { threshold: at(5) });
    assert_eq!(String::from_utf8(out).unwrap(), "<trkseg></trkseg>");
}

#[test]
fn new_point_inside_a_point_starts_over() {
    let events = vec![
        tag(EventKind::Start, "trkpt"),
        tag(EventKind::Start, "ele"),
        tag(EventKind::Start, "trkpt"),
        tag(EventKind::Start, "time"),
        text("2023-01-01T10:00:02Z"),
        tag(EventKind::End, "time"),
        tag(EventKind::End, "trkpt"),
    ];
    let out = filter_events(&events, TimeWindow::Until { threshold: at(5) });
    assert_eq!(
        String::from_utf8(out).unwrap(),
        "<trkpt><time>2023-01-01T10:00:02Z</time></trkpt>"
    );
}

#[test]
fn text_that_is_no_utf8_is_not_taken_for_time() {
    let mut broken = text("");
    broken.text = vec![0xff, 0xfe];
    broken.markup = vec![0xff, 0xfe];
    let events = vec![
        tag(EventKind::Start, "trkpt"),
        tag(EventKind::Start, "time"),
        text("2023-01-01T10:00:02Z"),
        broken,
        tag(EventKind::End, "time"),
        tag(EventKind::End, "trkpt"),
    ];
    let out = filter_events(&events, TimeWindow::Range { start: at(2), end: at(3) });
    let mut expected = b"<trkpt><time>2023-01-01T10:00:02Z".to_vec();
    expected.extend_from_slice(&[0xff, 0xfe]);
    expected.extend_from_slice(b"</time></trkpt>");
    assert_eq!(out, expected);
}

#[test]
fn advance_takes_the_time_it_is_given() {
    let window = TimeWindow::Range { start: Instant { nanos: 10 }, end: Instant { nanos: 20 } };
    let mut out = Vec::new();
    let mut filter = PointFilter::new(window);
    filter.advance(&tag(EventKind::Start, "trkpt"), None, &mut out);
    filter.advance(&tag(EventKind::Start, "time"), None, &mut out);
    filter.advance(&tag(EventKind::End, "time"), Some(Instant { nanos: 10 }), &mut out);
    assert!(out.is_empty());
    filter.advance(&tag(EventKind::End, "trkpt"), None, &mut out);
    assert_eq!(out, b"<trkpt><time></time></trkpt>");

    let mut out = Vec::new();
    let mut filter = PointFilter::new(window);
    filter.advance(&tag(EventKind::Start, "trkpt"), None, &mut out);
    filter.advance(&tag(EventKind::Start, "time"), None, &mut out);
    filter.advance(&tag(EventKind::End, "time"), Some(Instant { nanos: 20 }), &mut out);
    filter.advance(&tag(EventKind::End, "trkpt"), None, &mut out);
    assert!(out.is_empty());
}

#[test]
fn window_contains_by_its_bounds() {
    let range = TimeWindow::Range { start: Instant { nanos: 10 }, end: Instant { nanos: 20 } };
    assert!(!range.contains(Instant { nanos: 9 }));
    assert!(range.contains(Instant { nanos: 10 }));
    assert!(range.contains(Instant { nanos: 19 }));
    assert!(!range.contains(Instant { nanos: 20 }));
    assert!(!range.retains(None));
    assert!(range.retains(Some(Instant { nanos: 10 })));
    let until = TimeWindow::Until { threshold: Instant { nanos: 10 } };
    assert!(until.contains(Instant { nanos: i128::MIN }));
    assert!(until.contains(Instant { nanos: 10 }));
    assert!(!until.contains(Instant { nanos: 11 }));
    assert!(!until.retains(None));
    assert_eq!(TimeWindow::from_thresholds(Instant { nanos: 10 }, None), until);
    assert_eq!(
        TimeWindow::from_thresholds(Instant { nanos: 10 }, Some(Instant { nanos: 20 })),
        range
    );
}

#[test]
fn filtering_again_changes_nothing() {
    let documents = [
        track(&[0, 2, 10, 30, 59]),
        format!(
            "{}\n      <trkpt lat=\"1\" lon=\"2\"/>{}\n      <!-- c -->\n      <trkpt><ele>1</ele></trkpt>{}{}",
            HEAD,
            point(2),
            point(30),
            TAIL
        ),
        String::from("<trk>\n <trkpt><time>2023-01-01T10:00:10Z</time></trkpt>\n <name>n</name>\n</trk>"),
    ];
    let windows = [
        TimeWindow::Range { start: at(2), end: at(30) },
        TimeWindow::Range { start: at(0), end: at(0) },
        TimeWindow::Until { threshold: at(10) },
        TimeWindow::Until { threshold: Instant { nanos: i128::MAX } },
    ];
    for document in &documents {
        for window in windows {
            let once = filtered(document, window);
            let twice = filtered(&once, window);
            assert_eq!(twice, once);
        }
    }
}
