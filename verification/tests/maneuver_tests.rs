use hyperion::catalog::Catalog;
use hyperion::maneuver::{
    judge_sequence, resolve_target, BurnAssessment, BurnRejection, ReportedMass, ScheduleVerdict,
};

fn clean() -> BurnAssessment {
    BurnAssessment {
        readable: true,
        after_latency: true,
        cooldown_clear: true,
        within_delta_v: true,
        fuel_sufficient: true,
    }
}

#[test]
fn target_must_be_a_known_satellite() {
    let mut c = Catalog::new(2);
    c.ingest("SAT-Alpha-04", "SATELLITE");
    c.ingest("DEB-9", "DEBRIS");
    assert_eq!(resolve_target(&c, "DEB-9"), Err(ScheduleVerdict::NotSatellite));
    assert_eq!(resolve_target(&c, "SAT-Beta-05"), Err(ScheduleVerdict::NotFound));
    assert_eq!(resolve_target(&c, "SAT-Alpha-04"), Ok((4, 0)));
    // The lookup goes by numeric id alone.
    assert_eq!(resolve_target(&c, "SAT-X-9"), Ok((9, 1)));
}

#[test]
fn clean_sequence_out_of_contact_is_held() {
    let burns = vec![clean(), clean()];
    let v = judge_sequence(false, &burns);
    assert_eq!(v, ScheduleVerdict::Held);
    assert!(!v.ground_station_los());
    assert!(v.sufficient_fuel());
    assert_eq!(v.reported_mass(), ReportedMass::AfterSequence);
    assert_eq!(v.http_code(), 202);
    assert_eq!(v.status_text("B1", ""), "HELD: Awaiting ground station contact");
    // The same sequence in contact is scheduled.
    assert_eq!(judge_sequence(true, &burns), ScheduleVerdict::Scheduled);
}

#[test]
fn failing_burn_out_of_contact_is_still_rejected() {
    let burns = vec![BurnAssessment { readable: false, ..clean() }];
    let v = judge_sequence(false, &burns);
    assert_eq!(
        v,
        ScheduleVerdict::Rejected { index: 0, reason: BurnRejection::InvalidTimestamp, in_contact: false }
    );
    assert!(!v.ground_station_los());
    assert!(!v.sufficient_fuel());
    assert_eq!(v.reported_mass(), ReportedMass::BeforeBurn(0));
    assert_eq!(v.http_code(), 400);
}

#[test]
fn clean_sequence_is_scheduled() {
    let v = judge_sequence(true, &vec![clean(), clean()]);
    assert_eq!(v, ScheduleVerdict::Scheduled);
    assert!(v.ground_station_los() && v.sufficient_fuel());
    assert_eq!(v.reported_mass(), ReportedMass::AfterSequence);
    assert_eq!(v.http_code(), 202);
    assert_eq!(judge_sequence(true, &vec![]), ScheduleVerdict::Scheduled);
}

#[test]
fn first_failing_burn_and_check_decide() {
    let burns = vec![
        clean(),
        BurnAssessment { cooldown_clear: false, fuel_sufficient: false, ..clean() },
        BurnAssessment { readable: false, ..clean() },
    ];
    let v = judge_sequence(true, &burns);
    assert_eq!(
        v,
        ScheduleVerdict::Rejected { index: 1, reason: BurnRejection::Cooldown, in_contact: true }
    );
    assert!(v.ground_station_los());
    assert!(!v.sufficient_fuel());
    assert_eq!(v.reported_mass(), ReportedMass::BeforeBurn(1));
}

#[test]
fn each_rejection_reports_its_fuel_flag() {
    let cases = [
        (BurnAssessment { readable: false, ..clean() }, BurnRejection::InvalidTimestamp, false),
        (BurnAssessment { after_latency: false, ..clean() }, BurnRejection::Latency, true),
        (BurnAssessment { cooldown_clear: false, ..clean() }, BurnRejection::Cooldown, false),
        (BurnAssessment { within_delta_v: false, ..clean() }, BurnRejection::ExcessDeltaV, true),
        (BurnAssessment { fuel_sufficient: false, ..clean() }, BurnRejection::InsufficientFuel, false),
    ];
    for (a, reason, fuel) in cases {
        let v = judge_sequence(true, &vec![a]);
        assert_eq!(v, ScheduleVerdict::Rejected { index: 0, reason, in_contact: true });
        assert_eq!(v.sufficient_fuel(), fuel);
        assert_eq!(v.http_code(), 400);
    }
}

#[test]
fn unknown_target_replies() {
    assert_eq!(ScheduleVerdict::NotFound.http_code(), 404);
    assert_eq!(ScheduleVerdict::NotSatellite.http_code(), 400);
    assert_eq!(ScheduleVerdict::NotFound.reported_mass(), ReportedMass::Zero);
    assert!(!ScheduleVerdict::NotSatellite.sufficient_fuel());
}

#[test]
fn reply_texts() {
    assert_eq!(ScheduleVerdict::NotSatellite.status_text("", ""), "REJECTED: Target is not a satellite");
    assert_eq!(ScheduleVerdict::NotFound.status_text("", ""), "REJECTED: Satellite not found");
    assert_eq!(ScheduleVerdict::Scheduled.status_text("B1", ""), "SCHEDULED");
    let rejected = |reason| ScheduleVerdict::Rejected { index: 0, reason, in_contact: true };
    assert_eq!(
        rejected(BurnRejection::InvalidTimestamp).status_text("B1", "Invalid timestamp format"),
        "REJECTED: Invalid timestamp format"
    );
    assert_eq!(
        rejected(BurnRejection::Latency).status_text("B1", ""),
        "REJECTED: Burn 'B1' violates 10s latency constraint"
    );
    assert_eq!(
        rejected(BurnRejection::Cooldown).status_text("B2", ""),
        "REJECTED: Burn 'B2' violates 600s thruster cooldown"
    );
    assert_eq!(
        rejected(BurnRejection::ExcessDeltaV).status_text("B3", "(0.0200 > 0.0150 km/s)"),
        "REJECTED: Burn 'B3' exceeds max Δv (0.0200 > 0.0150 km/s)"
    );
    assert_eq!(
        rejected(BurnRejection::InsufficientFuel).status_text("B4", ""),
        "REJECTED: Burn 'B4' — insufficient fuel"
    );
}
