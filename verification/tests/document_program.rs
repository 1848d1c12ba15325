use gpx::{read, Gpx};
use gpxwrench::filter::filter_xml_by_time_to_writer;
use gpxwrench::instant::Instant;
use gpxwrench::scan::{extract_track_points, find_minimum_time};
use time::format_description::well_known::Iso8601;
use time::OffsetDateTime;

const SAMPLE_GPX: &str = r#"<?xml version="1.0" encoding="UTF-8"?>
<gpx version="1.1" creator="test">
  <trk>
    <name>Test Track</name>
    <trkseg>
      <trkpt lat="37.7749" lon="-122.4194">
        <ele>100</ele>
        <time>2023-01-01T10:00:00Z</time>
        <extensions>
          <ns3:TrackPointExtension xmlns:ns3="http://www.garmin.com/xmlschemas/TrackPointExtension/v1">
            <ns3:hr>150</ns3:hr>
          </ns3:TrackPointExtension>
        </extensions>
      </trkpt>
      <trkpt lat="37.7750" lon="-122.4195">
        <ele>101</ele>
        <time>2023-01-01T10:00:02Z</time>
        <extensions>
          <ns3:TrackPointExtension xmlns:ns3="http://www.garmin.com/xmlschemas/TrackPointExtension/v1">
            <ns3:hr>155</ns3:hr>
          </ns3:TrackPointExtension>
        </extensions>
      </trkpt>
      <trkpt lat="37.7751" lon="-122.4196">
        <ele>102</ele>
        <time>2023-01-01T10:00:10Z</time>
        <extensions>
          <ns3:TrackPointExtension xmlns:ns3="http://www.garmin.com/xmlschemas/TrackPointExtension/v1">
            <ns3:hr>160</ns3:hr>
          </ns3:TrackPointExtension>
        </extensions>
      </trkpt>
    </trkseg>
  </trk>
</gpx>"#;

/// The instant that `text` names, read by the `time` crate itself.
fn instant(text: &str) -> Instant {
    let parsed = OffsetDateTime::parse(text, &Iso8601::DEFAULT).unwrap();
    Instant { nanos: parsed.unix_timestamp_nanos() }
}

/// The coordinate that a decimal text stands for.
fn degrees(text: &[u8]) -> f64 {
    std::str::from_utf8(text).unwrap().parse().unwrap()
}

/// The earliest timestamp of the track points is found.
#[test]
fn main_test_find_minimum_time_with_valid_data() {
    let result = find_minimum_time(SAMPLE_GPX.as_bytes()).unwrap();
    assert!(result.is_some());

    let min_time = result.unwrap();
    let expected = instant("2023-01-01T10:00:00Z");
    assert_eq!(min_time, expected);
}

/// Track points without time elements give no minimum.
#[test]
fn main_test_find_minimum_time_with_no_time_elements() {
    let gpx_no_time = r#"<?xml version="1.0" encoding="UTF-8"?>
<gpx version="1.1" creator="test">
  <trk>
    <trkseg>
      <trkpt lat="37.7749" lon="-122.4194">
        <ele>100</ele>
      </trkpt>
    </trkseg>
  </trk>
</gpx>"#;

    let result = find_minimum_time(gpx_no_time.as_bytes()).unwrap();
    assert!(result.is_none());
}

/// Empty input is no error and gives no minimum.
#[test]
fn main_test_find_minimum_time_with_empty_input() {
    let result = find_minimum_time(b"").unwrap();
    assert!(result.is_none());
}

/// Malformed timestamps are passed over and valid ones found.
#[test]
fn main_test_find_minimum_time_with_malformed_time() {
    let gpx_bad_time = r#"<?xml version="1.0" encoding="UTF-8"?>
<gpx version="1.1" creator="test">
  <trk>
    <trkseg>
      <trkpt lat="37.7749" lon="-122.4194">
        <time>invalid-time</time>
      </trkpt>
      <trkpt lat="37.7750" lon="-122.4195">
        <time>2023-01-01T10:00:00Z</time>
      </trkpt>
    </trkseg>
  </trk>
</gpx>"#;

    let result = find_minimum_time(gpx_bad_time.as_bytes()).unwrap();
    assert!(result.is_some());
    let expected = instant("2023-01-01T10:00:00Z");
    assert_eq!(result.unwrap(), expected);
}

/// The filter writes a document that the `gpx` crate can read.
#[test]
fn main_test_filter_xml_by_time_validates_with_gpx_crate() {
    let threshold = instant("2023-01-01T10:00:05Z");

    let mut output = Vec::new();
    filter_xml_by_time_to_writer(SAMPLE_GPX.as_bytes(), threshold, None, &mut output).unwrap();

    let gpx_result: Result<Gpx, _> = read(output.as_slice());
    assert!(gpx_result.is_ok());

    let gpx = gpx_result.unwrap();
    assert_eq!(gpx.tracks.len(), 1);
    assert_eq!(gpx.tracks[0].segments.len(), 1);

    // The first two points lie at or before the threshold.
    let points = &gpx.tracks[0].segments[0].points;
    assert_eq!(points.len(), 2);

    assert!(points[0].time.is_some());
    assert!(points[1].time.is_some());
}

#[test]
fn main_test_filter_xml_by_time_range() {
    let start_threshold = instant("2023-01-01T10:00:00Z");
    let end_threshold = instant("2023-01-01T10:00:03Z");

    let mut output = Vec::new();
    filter_xml_by_time_to_writer(
        SAMPLE_GPX.as_bytes(),
        start_threshold,
        Some(end_threshold),
        &mut output,
    )
    .unwrap();

    let gpx_result: Result<Gpx, _> = read(output.as_slice());
    assert!(gpx_result.is_ok());

    let gpx = gpx_result.unwrap();
    assert_eq!(gpx.tracks.len(), 1);
    assert_eq!(gpx.tracks[0].segments.len(), 1);

    // The first two points lie in [10:00:00, 10:00:03).
    let points = &gpx.tracks[0].segments[0].points;
    assert_eq!(points.len(), 2);

    assert!(points[0].time.is_some());
    assert!(points[1].time.is_some());
}

#[test]
fn main_test_extract_track_points() {
    let sample_gpx_with_movement = r#"<?xml version="1.0" encoding="UTF-8"?>
<gpx version="1.1" creator="test">
  <trk>
    <trkseg>
      <trkpt lat="37.7749" lon="-122.4194">
        <time>2023-01-01T10:00:00Z</time>
      </trkpt>
      <trkpt lat="37.7750" lon="-122.4195">
        <time>2023-01-01T10:00:05Z</time>
      </trkpt>
      <trkpt lat="37.7760" lon="-122.4180">
        <time>2023-01-01T10:00:10Z</time>
      </trkpt>
    </trkseg>
  </trk>
</gpx>"#;

    let track_points = extract_track_points(sample_gpx_with_movement.as_bytes()).unwrap();
    assert_eq!(track_points.len(), 3);

    assert_eq!(degrees(&track_points[0].lat), 37.7749);
    assert_eq!(degrees(&track_points[0].lon), -122.4194);
    assert_eq!(degrees(&track_points[1].lat), 37.7750);
    assert_eq!(degrees(&track_points[1].lon), -122.4195);
}
