//! The two commands, from the bytes that come in to the bytes that go out.

use crate::activity::{
    detect_activity_bounds, fits_instant, times_of, window_end, window_start, DetectError,
};
use crate::bytes::copy_bytes;
use crate::event::XmlError;
use crate::filter::{filter_document, filter_xml_by_time_range, kept_events, markup_of};
use crate::instant::{Instant, TimeWindow};
use crate::range::{parse_range, range_of, RangeError};
use crate::reader::document_scan;
use crate::scan::{find_minimum_time, minimum_time, track_points_view, TrackPoint};
use vstd::prelude::*;
use vstd::string::StringSliceAdditionalSpecFns;

verus! {

/// Why a command gave no document.
#[derive(Clone, Debug, PartialEq, Eq)]
pub enum TrimError {
    /// The range argument could not be read.
    Range(RangeError),
    /// The document could not be read.
    Xml(XmlError),
    /// No activity window could be found.
    Detect(DetectError),
    /// A bound of the window lies beyond what an instant can hold.
    WindowOutOfRange,
}

/// Trims a document to a range of offsets from the earliest time of its
/// track points.
///
/// The range is read first, and a range that cannot be read fails before
/// the document is looked at. A document without any track point time
/// comes back as it is. Otherwise the track points whose time lies at or
/// after the earliest time plus the first offset, and before the earliest
/// time plus the second, are kept.
pub fn trim_command(range_str: &str, input: &[u8]) -> (r: Result<Vec<u8>, TrimError>)
    ensures
        match range_of(range_str.spec_bytes()) {
            Err(e) => r matches Err(TrimError::Range(err)) && err == e,
            Ok(range) => match document_scan(input@).failure {
                Some(failure) => r matches Err(TrimError::Xml(err)) && err@ == failure,
                None => match minimum_time(document_scan(input@).events) {
                    None => r matches Ok(out) && out@ == input@,
                    Some(origin) => match range.window_at(origin) {
                        None => r is Err && r->Err_0 is WindowOutOfRange,
                        Some(window) => r matches Ok(out) && out@ == markup_of(
                            kept_events(document_scan(input@).events, window),
                        ),
                    },
                },
            },
        },
{
    let range = match parse_range(range_str) {
        Err(e) => {
            return Err(TrimError::Range(e));
        },
        Ok(range) => range,
    };
    let earliest = match find_minimum_time(input) {
        Err(e) => {
            return Err(TrimError::Xml(e));
        },
        Ok(earliest) => earliest,
    };
    match earliest {
        None => Ok(copy_bytes(input)),
        Some(origin) => match range.resolve(origin) {
            None => Err(TrimError::WindowOutOfRange),
            Some(window) => match filter_document(input, window) {
                Err(e) => Err(TrimError::Xml(e)),
                Ok(out) => Ok(out),
            },
        },
    }
}

/// Trims a document to the window in which its track was active.
///
/// `track_points` are the samples of the document and `active` says for
/// each pair of samples in a row whether the speed between them reached the
/// threshold. A document without samples comes back as it is. Otherwise
/// the track points whose time lies in the activity window are kept.
pub fn trim_to_activity_command(
    input: &[u8],
    track_points: &[TrackPoint],
    active: &[bool],
    buffer_seconds: u64,
) -> (r: Result<Vec<u8>, TrimError>)
    ensures
        if track_points.len() == 0 {
            r matches Ok(out) && out@ == input@
        } else if track_points.len() == 1 {
            r matches Err(TrimError::Detect(e)) && e == DetectError::TooFewPoints
        } else if active.len() != track_points.len() - 1 {
            r matches Err(TrimError::Detect(e)) && e == DetectError::StepCountMismatch
        } else {
            let times = times_of(track_points_view(track_points@));
            let start = window_start(times, active@, buffer_seconds);
            let end = window_end(times, active@, buffer_seconds);
            if !(fits_instant(start) && fits_instant(end)) {
                r matches Err(TrimError::Detect(e)) && e == DetectError::OutOfRange
            } else {
                match document_scan(input@).failure {
                    Some(failure) => r matches Err(TrimError::Xml(err)) && err@ == failure,
                    None => r matches Ok(out) && out@ == markup_of(
                        kept_events(
                            document_scan(input@).events,
                            TimeWindow::Range {
                                start: Instant { nanos: start as i128 },
                                end: Instant { nanos: end as i128 },
                            },
                        ),
                    ),
                }
            }
        },
{
    if track_points.len() == 0 {
        return Ok(copy_bytes(input));
    }
    let (start, end) = match detect_activity_bounds(track_points, active, buffer_seconds) {
        Err(e) => {
            return Err(TrimError::Detect(e));
        },
        Ok(bounds) => bounds,
    };
    match filter_xml_by_time_range(input, start, end) {
        Err(e) => Err(TrimError::Xml(e)),
        Ok(out) => Ok(out),
    }
}

} // verus!
