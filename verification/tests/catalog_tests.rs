use hyperion::catalog::{AutoBurn, Catalog, Registration, SlotStatus};

#[test]
fn first_report_appends_and_second_updates() {
    let mut c = Catalog::new(4);
    assert_eq!(c.ingest("SAT-Alpha-04", "SATELLITE"), Registration::Added(0));
    assert_eq!(c.ingest("DEB-99421", "DEBRIS"), Registration::Added(1));
    assert_eq!(c.ingest("SAT-Alpha-04", "SATELLITE"), Registration::Existing(0));
    assert_eq!(c.len(), 2);
    assert_eq!(c.index_of(4), Some(0));
    assert_eq!(c.index_of(99421), Some(1));
    assert_eq!(c.index_of(5), None);
    assert_eq!(c.name(0), "SAT-Alpha-04");
    assert_eq!(c.id(1), 99421);
    assert!(c.is_satellite(0));
    assert!(!c.is_satellite(1));
    assert!(!c.is_eol(0));
}

#[test]
fn numeric_id_decides_identity() {
    let mut c = Catalog::new(0);
    assert_eq!(c.ingest("SAT-Alpha-04", "SATELLITE"), Registration::Added(0));
    // Another API string with the same numeric id files as the same object.
    assert_eq!(c.ingest("DEB-04", "DEBRIS"), Registration::Existing(0));
    assert_eq!(c.name(0), "SAT-Alpha-04");
    assert!(c.is_satellite(0));
}

#[test]
fn register_directly() {
    let mut c = Catalog::new(1);
    assert_eq!(c.register("X".to_string(), 9, false), Registration::Added(0));
    assert_eq!(c.register("Y".to_string(), 9, true), Registration::Existing(0));
    assert_eq!(c.name(0), "X");
    assert!(!c.is_satellite(0));
}

#[test]
fn find_satellite_skips_debris() {
    let mut c = Catalog::new(2);
    c.ingest("DEB-7", "DEBRIS");
    c.ingest("SAT-A-8", "SATELLITE");
    assert_eq!(c.find_satellite(7), None);
    assert_eq!(c.find_satellite(8), Some(1));
    assert_eq!(c.find_satellite(9), None);
}

#[test]
fn end_of_life_declared_once() {
    let mut c = Catalog::new(4);
    c.ingest("SAT-A-1", "SATELLITE");
    c.ingest("DEB-2", "DEBRIS");
    c.ingest("SAT-B-3", "SATELLITE");
    c.ingest("SAT-C-4", "SATELLITE");
    // Satellite 4 already has a burn queued; debris never reaches end of life.
    let due = c.declare_end_of_life(&vec![true, true, true, true], &vec![4]);
    assert_eq!(due, vec![0, 2]);
    assert!(c.is_eol(0) && !c.is_eol(1) && c.is_eol(2) && !c.is_eol(3));
    let again = c.declare_end_of_life(&vec![true, true, true, true], &vec![]);
    assert_eq!(again, vec![3]);
    let none = c.declare_end_of_life(&vec![true, true, true, true], &vec![]);
    assert!(none.is_empty());
}

#[test]
fn fuel_above_reserve_not_due() {
    let mut c = Catalog::new(1);
    c.ingest("SAT-A-1", "SATELLITE");
    assert!(c.declare_end_of_life(&vec![false], &vec![]).is_empty());
    assert!(!c.is_eol(0));
}

#[test]
fn out_of_box_lists_drifted_satellites() {
    let mut c = Catalog::new(3);
    c.ingest("SAT-A-10", "SATELLITE");
    c.ingest("DEB-11", "DEBRIS");
    c.ingest("SAT-B-12", "SATELLITE");
    assert_eq!(c.out_of_box_ids(&vec![true, true, true]), vec![10, 12]);
    assert_eq!(c.out_of_box_ids(&vec![false, true, true]), vec![12]);
    assert!(c.out_of_box_ids(&vec![false, true, false]).is_empty());
}

#[test]
fn slot_status_ranks_eol_over_drift() {
    let mut c = Catalog::new(2);
    c.ingest("SAT-A-1", "SATELLITE");
    c.ingest("SAT-B-2", "SATELLITE");
    c.declare_end_of_life(&vec![true, false], &vec![]);
    assert_eq!(c.slot_status(0, true), SlotStatus::EndOfLife);
    assert_eq!(c.slot_status(1, true), SlotStatus::OutOfSlot);
    assert_eq!(c.slot_status(1, false), SlotStatus::Nominal);
    assert_eq!(SlotStatus::EndOfLife.label(), "EOL");
    assert_eq!(SlotStatus::OutOfSlot.label(), "OUT_OF_SLOT");
    assert_eq!(SlotStatus::Nominal.label(), "NOMINAL");
}

#[test]
fn snapshot_split_keeps_catalogue_order() {
    let mut c = Catalog::new(4);
    c.ingest("DEB-1", "DEBRIS");
    c.ingest("SAT-A-2", "SATELLITE");
    c.ingest("DEB-3", "DEBRIS");
    c.ingest("SAT-B-4", "SATELLITE");
    let (sats, debris) = c.satellites_and_debris();
    assert_eq!(sats, vec![1, 3]);
    assert_eq!(debris, vec![0, 2]);
    assert_eq!(Catalog::new(0).satellites_and_debris(), (vec![], vec![]));
}

#[test]
fn autonomous_burns_evade_first_then_recover() {
    let mut c = Catalog::new(5);
    c.ingest("SAT-A-1", "SATELLITE");
    c.ingest("SAT-B-2", "SATELLITE");
    c.ingest("DEB-3", "DEBRIS");
    c.ingest("SAT-C-4", "SATELLITE");
    c.ingest("SAT-D-5", "SATELLITE");
    let threatened = vec![true, false, true, true, false];
    let drifted = vec![true, true, true, false, true];
    let cooled = vec![true, true, true, true, false];
    let pending = vec![(4, AutoBurn::Evasion)];
    let plan = c.plan_autonomous_burns(&threatened, &drifted, &cooled, &pending);
    // Object 0 is threatened and drifted: it evades. Object 1 only drifted:
    // it recovers. Debris, a satellite whose evasion is already pending and
    // one still cooling down get nothing.
    assert_eq!(plan, vec![(0, AutoBurn::Evasion), (1, AutoBurn::Recovery)]);
}

#[test]
fn pending_burn_of_another_kind_does_not_block() {
    let mut c = Catalog::new(2);
    c.ingest("SAT-A-1", "SATELLITE");
    c.ingest("SAT-B-2", "SATELLITE");
    // Satellite 1 still has a recovery pending, satellite 2 an evasion.
    let pending = vec![(1, AutoBurn::Recovery), (2, AutoBurn::Evasion)];
    let plan = c.plan_autonomous_burns(&vec![true, false], &vec![true, true], &vec![true, true], &pending);
    assert_eq!(plan, vec![(0, AutoBurn::Evasion), (1, AutoBurn::Recovery)]);
    // The same recovery is not commanded twice.
    let plan = c.plan_autonomous_burns(&vec![false, false], &vec![true, false], &vec![true, true], &pending);
    assert!(plan.is_empty());
}

#[test]
fn no_autonomous_burn_at_end_of_life() {
    let mut c = Catalog::new(1);
    c.ingest("SAT-A-1", "SATELLITE");
    assert_eq!(c.declare_end_of_life(&vec![true], &vec![]), vec![0]);
    let plan = c.plan_autonomous_burns(&vec![true], &vec![true], &vec![true], &vec![]);
    assert!(plan.is_empty());
}
