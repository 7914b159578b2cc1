use hyperion::grid::{neighbour_pairs, shared_neighbour_pairs};
use hyperion::queue::retained_burns;
use hyperion::screening::{screening_route, HorizonSign, ScreeningRoute};

fn sorted(mut v: Vec<(usize, usize)>) -> Vec<(usize, usize)> {
    v.sort();
    v
}

#[test]
fn satellites_screen_their_neighbours() {
    let cells = vec![(0, 0, 0), (1, 1, 1), (2, 0, 0), (-1, 0, 1), (0, 0, 0)];
    let sat = vec![true, false, false, true, false];
    let pairs = sorted(neighbour_pairs(&cells, &sat));
    // Satellites 0 and 3 touch: the pair is listed once, from satellite 0.
    assert_eq!(pairs, vec![(0, 1), (0, 3), (0, 4), (3, 4)]);
}

#[test]
fn debris_before_a_satellite_is_screened() {
    let cells = vec![(5, 5, 5), (5, 5, 5)];
    let sat = vec![false, true];
    assert_eq!(neighbour_pairs(&cells, &sat), vec![(1, 0)]);
    assert_eq!(shared_neighbour_pairs(&cells, &sat), vec![(0, 1)]);
}

#[test]
fn two_satellites_screened_once() {
    let cells = vec![(0, 0, 0), (0, 1, 0), (0, -1, 0)];
    let sat = vec![true, true, false];
    assert_eq!(sorted(neighbour_pairs(&cells, &sat)), vec![(0, 1), (0, 2)]);
}

#[test]
fn shared_pairs_need_a_satellite() {
    let cells = vec![(0, 0, 0), (0, 0, 1), (0, 1, 0), (9, 9, 9)];
    let sat = vec![false, false, true, true];
    let pairs = sorted(shared_neighbour_pairs(&cells, &sat));
    assert_eq!(pairs, vec![(0, 2), (1, 2)]);
}

#[test]
fn extreme_cells_do_not_wrap() {
    let cells = vec![(i32::MAX, 0, 0), (i32::MIN, 0, 0), (i32::MAX - 1, 0, 0)];
    let sat = vec![true, true, false];
    assert_eq!(sorted(neighbour_pairs(&cells, &sat)), vec![(0, 2)]);
}

#[test]
fn empty_population_has_no_pairs() {
    assert!(neighbour_pairs(&vec![], &vec![]).is_empty());
}

#[test]
fn route_guards() {
    assert!(matches!(screening_route(&vec![], HorizonSign::Positive), ScreeningRoute::Skip));
    assert!(matches!(screening_route(&vec![true, false], HorizonSign::Zero), ScreeningRoute::Skip));
    assert!(matches!(screening_route(&vec![true, false], HorizonSign::Negative), ScreeningRoute::Skip));
    assert!(matches!(screening_route(&vec![false, false], HorizonSign::Positive), ScreeningRoute::Skip));
    assert!(matches!(screening_route(&vec![true, true], HorizonSign::Positive), ScreeningRoute::Skip));
}

#[test]
fn direct_route_splits_population() {
    match screening_route(&vec![false, true, false, true], HorizonSign::Positive) {
        ScreeningRoute::Direct { satellites, debris } => {
            assert_eq!(satellites, vec![1, 3]);
            assert_eq!(debris, vec![0, 2]);
        }
        _ => panic!("expected the direct screener"),
    }
}

#[test]
fn large_constellation_uses_grid() {
    let mut sat = vec![true; 501];
    assert!(matches!(screening_route(&sat, HorizonSign::Positive), ScreeningRoute::Grid));
    sat.truncate(500);
    sat.push(false);
    assert!(matches!(screening_route(&sat, HorizonSign::Positive), ScreeningRoute::Direct { .. }));
    // Without debris the grid still screens satellites against each other.
    let all_sats = vec![true; 600];
    assert!(matches!(screening_route(&all_sats, HorizonSign::Positive), ScreeningRoute::Grid));
}

#[test]
fn executed_keys_leave_queue() {
    let keep = retained_burns(&vec![1000, 2000, 1000, 3000], &vec![1000]);
    assert_eq!(keep, vec![false, true, false, true]);
    assert_eq!(retained_burns(&vec![5], &vec![]), vec![true]);
}
