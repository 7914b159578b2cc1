//! Which conjunction screener runs on a population, and on which objects.

use vstd::prelude::*;

use crate::indices::{
    indices_where, lemma_indices_where_complete, lemma_indices_where_len, lemma_indices_where_sound,
};

verus! {

/// Above this many satellites the grid screener replaces the direct
/// satellite-against-debris screener.
pub const SATELLITE_GRID_THRESHOLD: usize = 500;

/// The sign of a prediction horizon (a horizon that is not a number counts
/// as positive: neither `< 0` nor `<= 0` holds of it).
#[derive(Clone, Copy, Debug, PartialEq, Eq, Structural)]
pub enum HorizonSign {
    Negative,
    Zero,
    Positive,
}

/// The screener to run.
pub enum ScreeningRoute {
    /// Nothing can be found: no screening runs and no event is reported.
    Skip,
    /// Every satellite against every debris object (indices into the population).
    Direct { satellites: Vec<usize>, debris: Vec<usize> },
    /// Grid screening over the whole population.
    Grid,
}

pub open spec fn count_satellites(sat: Seq<bool>) -> nat {
    indices_where(|i: int| sat[i], sat.len()).len()
}

pub open spec fn count_debris(sat: Seq<bool>) -> nat {
    indices_where(|i: int| !sat[i], sat.len()).len()
}

/// Screening finds nothing unless there are two objects, a positive horizon
/// and at least one satellite; the direct screener also needs debris.
pub open spec fn route_is_skip(sat: Seq<bool>, horizon: HorizonSign) -> bool {
    ||| sat.len() < 2
    ||| horizon != HorizonSign::Positive
    ||| count_satellites(sat) == 0
    ||| (count_satellites(sat) <= SATELLITE_GRID_THRESHOLD && count_debris(sat) == 0)
}

/// Chooses the screener for a population with the given satellite flags.
pub fn screening_route(is_satellite: &Vec<bool>, horizon: HorizonSign) -> (r: ScreeningRoute)
    ensures
        route_is_skip(is_satellite@, horizon) ==> r is Skip,
        !route_is_skip(is_satellite@, horizon) && count_satellites(is_satellite@)
            <= SATELLITE_GRID_THRESHOLD ==> (r matches ScreeningRoute::Direct { satellites, debris }
            && satellites@ == indices_where(|i: int| is_satellite@[i], is_satellite@.len())
            && debris@ == indices_where(|i: int| !is_satellite@[i], is_satellite@.len())),
        !route_is_skip(is_satellite@, horizon) && count_satellites(is_satellite@)
            > SATELLITE_GRID_THRESHOLD ==> r is Grid,
{
    let n = is_satellite.len();
    let ghost sat_pred = |i: int| is_satellite@[i];
    let ghost deb_pred = |i: int| !is_satellite@[i];
    let mut satellites: Vec<usize> = Vec::new();
    let mut debris: Vec<usize> = Vec::new();
    let mut i: usize = 0;
    while i < n
        invariant
            n == is_satellite@.len(),
            i <= n,
            sat_pred == (|i: int| is_satellite@[i]),
            deb_pred == (|i: int| !is_satellite@[i]),
            satellites@ == indices_where(sat_pred, i as nat),
            debris@ == indices_where(deb_pred, i as nat),
        decreases n - i,
    {
        proof {
            lemma_indices_where_len(sat_pred, i as nat);
            lemma_indices_where_len(deb_pred, i as nat);
        }
        if is_satellite[i] {
            satellites.push(i);
        } else {
            debris.push(i);
        }
        i = i + 1;
    }
    if n < 2 {
        return ScreeningRoute::Skip;
    }
    match horizon {
        HorizonSign::Positive => {},
        _ => {
            return ScreeningRoute::Skip;
        },
    }
    if satellites.len() == 0 {
        return ScreeningRoute::Skip;
    }
    if satellites.len() <= SATELLITE_GRID_THRESHOLD {
        if debris.len() == 0 {
            ScreeningRoute::Skip
        } else {
            ScreeningRoute::Direct { satellites, debris }
        }
    } else {
        ScreeningRoute::Grid
    }
}

/// Screening runs exactly when it can find something: a population of at
/// least two objects with a positive horizon, a satellite and a debris object
/// is always screened; one with a satellite, a positive horizon and more
/// satellites than the grid threshold is screened by the grid; and a
/// population of fewer than two objects, without a satellite, or with a
/// horizon that is not positive is skipped.
pub proof fn law_screening_runs_when_it_can_find(sat: Seq<bool>, horizon: HorizonSign)
    requires
        sat.len() <= usize::MAX,
    ensures
        sat.len() >= 2 && horizon == HorizonSign::Positive && (exists|i: int| 0 <= i < sat.len() && #[trigger] sat[i])
            && (exists|j: int| 0 <= j < sat.len() && !#[trigger] sat[j]) ==> !route_is_skip(sat, horizon),
        sat.len() >= 2 && horizon == HorizonSign::Positive && count_satellites(sat) > SATELLITE_GRID_THRESHOLD
            ==> !route_is_skip(sat, horizon),
        sat.len() < 2 || horizon != HorizonSign::Positive || (forall|i: int| 0 <= i < sat.len() ==> !#[trigger] sat[i])
            ==> route_is_skip(sat, horizon),
        count_satellites(sat) <= sat.len(),
{
    let sp = |i: int| sat[i];
    let dp = |i: int| !sat[i];
    lemma_indices_where_len(sp, sat.len());
    lemma_indices_where_sound(sp, sat.len());
    if exists|i: int| 0 <= i < sat.len() && #[trigger] sat[i] {
        let i = choose|i: int| 0 <= i < sat.len() && #[trigger] sat[i];
        lemma_indices_where_complete(sp, sat.len(), i);
    }
    if exists|j: int| 0 <= j < sat.len() && !#[trigger] sat[j] {
        let j = choose|j: int| 0 <= j < sat.len() && !#[trigger] sat[j];
        lemma_indices_where_complete(dp, sat.len(), j);
    }
    if forall|i: int| 0 <= i < sat.len() ==> !#[trigger] sat[i] {
        let w = indices_where(sp, sat.len());
        if w.len() > 0 {
            assert(sp(w[0] as int));
        }
    }
}

} // verus!
