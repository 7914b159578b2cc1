use hyperion::clock::{format_unix_seconds, parse_timestamp, text_from_formatting, timestamp_from_reading};
use hyperion::models::{telemetry_status_code, StepResponse, TelemetryOutcome, TelemetryResponse};

#[test]
fn parses_utc_timestamp_to_millis() {
    assert_eq!(parse_timestamp("2026-03-12T08:00:00.000Z"), Ok(1_773_302_400_000));
    assert_eq!(parse_timestamp("2000-01-01T12:00:00Z"), Ok(946_728_000_000));
    assert_eq!(parse_timestamp("2026-03-12T08:00:00.250+00:00"), Ok(1_773_302_400_250));
}

#[test]
fn offsets_are_converted_to_utc() {
    assert_eq!(parse_timestamp("2026-03-12T10:00:00+02:00"), Ok(1_773_302_400_000));
}

#[test]
fn invalid_timestamp_message() {
    assert_eq!(
        parse_timestamp("yesterday"),
        Err("Invalid timestamp: yesterday".to_string())
    );
    assert_eq!(parse_timestamp(""), Err("Invalid timestamp: ".to_string()));
}

#[test]
fn formats_rfc3339() {
    assert_eq!(format_unix_seconds(1_773_216_000), "2026-03-11T08:00:00+00:00");
    assert_eq!(format_unix_seconds(0), "1970-01-01T00:00:00+00:00");
}

#[test]
fn unrepresentable_instant_reads_as_epoch() {
    assert_eq!(format_unix_seconds(i64::MAX), "1970-01-01T00:00:00+00:00");
    assert_eq!(format_unix_seconds(i64::MIN), "1970-01-01T00:00:00+00:00");
}

#[test]
fn telemetry_replies() {
    let ok = TelemetryResponse::for_outcome(TelemetryOutcome::Acknowledged { processed: 3, warnings: 2 });
    assert_eq!(ok.status, "ACK");
    assert_eq!(ok.processed_count, 3);
    assert_eq!(ok.active_cdm_warnings, 2);
    let bad_time = TelemetryResponse::for_outcome(TelemetryOutcome::BadTimestamp);
    assert_eq!(bad_time.status, "ERR_TIMESTAMP");
    assert_eq!(bad_time.processed_count, 0);
    let bad_parse = TelemetryResponse::for_outcome(TelemetryOutcome::BadPayload);
    assert_eq!(bad_parse.status, "ERR_PARSE");
    assert_eq!(bad_parse.active_cdm_warnings, 0);
    assert_eq!(telemetry_status_code(TelemetryOutcome::Acknowledged { processed: 0, warnings: 0 }), 200);
    assert_eq!(telemetry_status_code(TelemetryOutcome::BadPayload), 400);
}

#[test]
fn step_reply() {
    let r = StepResponse::completed(1_773_302_400, 1, 2);
    assert_eq!(r.status, "STEP_COMPLETE");
    assert_eq!(r.new_timestamp, "2026-03-12T08:00:00+00:00");
    assert_eq!(r.collisions_detected, 1);
    assert_eq!(r.maneuvers_executed, 2);
}

#[test]
fn reading_decides_the_timestamp_result() {
    assert_eq!(timestamp_from_reading("t", Some(42)), Ok(42));
    assert_eq!(
        timestamp_from_reading("noon", None),
        Err("Invalid timestamp: noon".to_string())
    );
}

#[test]
fn formatting_result_decides_the_text() {
    assert_eq!(text_from_formatting(Some("x".to_string())), "x");
    assert_eq!(text_from_formatting(None), "1970-01-01T00:00:00+00:00");
    assert_eq!(format_unix_seconds(i64::MAX), "1970-01-01T00:00:00+00:00");
}
