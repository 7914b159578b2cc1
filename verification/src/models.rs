//! Replies of the ground-segment API that carry no physical quantities.

use vstd::prelude::*;

use crate::clock::{format_unix_seconds, unix_seconds_text};

verus! {

/// How a telemetry upload ended.
#[derive(Clone, Copy, Debug, PartialEq, Eq, Structural)]
pub enum TelemetryOutcome {
    /// Every object was filed; `warnings` conjunction warnings are active.
    Acknowledged { processed: usize, warnings: usize },
    /// The upload's timestamp could not be read.
    BadTimestamp,
    /// The upload could not be parsed.
    BadPayload,
}

/// The reply to a telemetry upload.
pub struct TelemetryResponse {
    pub status: String,
    pub processed_count: usize,
    pub active_cdm_warnings: usize,
}

pub open spec fn telemetry_status_text(o: TelemetryOutcome) -> Seq<char> {
    match o {
        TelemetryOutcome::Acknowledged { .. } => seq!['A', 'C', 'K'],
        TelemetryOutcome::BadTimestamp => seq![
            'E', 'R', 'R', '_', 'T', 'I', 'M', 'E', 'S', 'T', 'A', 'M', 'P',
        ],
        TelemetryOutcome::BadPayload => seq!['E', 'R', 'R', '_', 'P', 'A', 'R', 'S', 'E'],
    }
}

/// The HTTP status code of a telemetry reply.
pub open spec fn telemetry_http_code(o: TelemetryOutcome) -> u16 {
    match o {
        TelemetryOutcome::Acknowledged { .. } => 200,
        _ => 400,
    }
}

impl TelemetryResponse {
    /// The reply for an upload outcome: counts only when it was acknowledged.
    pub fn for_outcome(o: TelemetryOutcome) -> (r: TelemetryResponse)
        ensures
            r.status@ == telemetry_status_text(o),
            r.processed_count == (match o {
                TelemetryOutcome::Acknowledged { processed, .. } => processed,
                _ => 0,
            }),
            r.active_cdm_warnings == (match o {
                TelemetryOutcome::Acknowledged { warnings, .. } => warnings,
                _ => 0,
            }),
    {
        match o {
            TelemetryOutcome::Acknowledged { processed, warnings } => {
                let status = "ACK".to_owned();
                proof {
                    reveal_strlit("ACK");
                }
                TelemetryResponse {
                    status,
                    processed_count: processed,
                    active_cdm_warnings: warnings,
                }
            },
            TelemetryOutcome::BadTimestamp => {
                let status = "ERR_TIMESTAMP".to_owned();
                proof {
                    reveal_strlit("ERR_TIMESTAMP");
                }
                TelemetryResponse { status, processed_count: 0, active_cdm_warnings: 0 }
            },
            TelemetryOutcome::BadPayload => {
                let status = "ERR_PARSE".to_owned();
                proof {
                    reveal_strlit("ERR_PARSE");
                }
                TelemetryResponse { status, processed_count: 0, active_cdm_warnings: 0 }
            },
        }
    }
}

/// The HTTP status code of a telemetry reply: 200 when acknowledged, 400 otherwise.
pub fn telemetry_status_code(o: TelemetryOutcome) -> (r: u16)
    ensures
        r == telemetry_http_code(o),
{
    match o {
        TelemetryOutcome::Acknowledged { .. } => 200,
        _ => 400,
    }
}

/// The reply to a simulation step.
pub struct StepResponse {
    pub status: String,
    pub new_timestamp: String,
    pub collisions_detected: usize,
    pub maneuvers_executed: usize,
}

pub open spec fn step_complete_text() -> Seq<char> {
    seq!['S', 'T', 'E', 'P', '_', 'C', 'O', 'M', 'P', 'L', 'E', 'T', 'E']
}

impl StepResponse {
    /// The reply for a completed step that ends `end_secs` seconds after the
    /// Unix epoch.
    pub fn completed(end_secs: i64, collisions_detected: usize, maneuvers_executed: usize) -> (r:
        StepResponse)
        ensures
            r.status@ == step_complete_text(),
            r.new_timestamp@ == unix_seconds_text(end_secs),
            r.collisions_detected == collisions_detected,
            r.maneuvers_executed == maneuvers_executed,
    {
        let status = "STEP_COMPLETE".to_owned();
        proof {
            reveal_strlit("STEP_COMPLETE");
        }
        StepResponse {
            status,
            new_timestamp: format_unix_seconds(end_secs),
            collisions_detected,
            maneuvers_executed,
        }
    }
}

/// Only an acknowledged upload is answered 200 and "ACK"; a refused one is
/// answered 400 with an error text.
pub proof fn law_telemetry_reply_follows_outcome(o: TelemetryOutcome)
    ensures
        (telemetry_http_code(o) == 200) <==> (o is Acknowledged),
        !(o is Acknowledged) ==> telemetry_http_code(o) == 400,
        (telemetry_status_text(o) == seq!['A', 'C', 'K']) <==> (o is Acknowledged),
        !(o is Acknowledged) ==> telemetry_status_text(o).take(4) == seq!['E', 'R', 'R', '_'],
{
    if !(o is Acknowledged) {
        assert(telemetry_status_text(o).len() != 3);
        assert(telemetry_status_text(o).take(4) =~= seq!['E', 'R', 'R', '_']);
    }
}

} // verus!
