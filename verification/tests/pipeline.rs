//! The refresh pipeline end to end: geographic filtering, miss planning,
//! cache behaviour, sorting, and selection across cycles.

use vatsim_online::engine::sort_by_experience;
use vatsim_online::geo::filter_pilot_distance;
use vatsim_online::models::{Pilot, RankedPilot, RatingsData};
use vatsim_online::state::{reanchor, App};

fn pilot(cid: u64, callsign: &str) -> Pilot {
    Pilot {
        cid,
        name: format!("Pilot {cid}"),
        callsign: callsign.to_string(),
        latitude_udeg: 32_733_800,
        longitude_udeg: -117_193_300,
        altitude: 2500,
        transponder: "1200".to_string(),
        flight_plan: None,
        logon_time: "2024-01-01T00:00:00Z".to_string(),
    }
}

fn ranked(cid: u64, callsign: &str, centihours: u64) -> RankedPilot {
    RankedPilot { pilot: pilot(cid, callsign), stat: RatingsData { pilot: centihours, atc: 0 } }
}

#[test]
fn filter_keeps_only_strictly_in_range() {
    let pilots = vec![pilot(1, "AAL1"), pilot(2, "AAL2"), pilot(3, "AAL3")];
    let dists: Vec<u64> = vec![100, 2000, 150];
    let kept = filter_pilot_distance(pilots, &dists, 200);
    let cids: Vec<u64> = kept.iter().map(|p| p.cid).collect();
    assert_eq!(cids, vec![1, 3]);
}

#[test]
fn filter_excludes_distance_equal_to_radius() {
    let pilots = vec![pilot(1, "AAL1"), pilot(2, "AAL2")];
    let dists: Vec<u64> = vec![200, 199];
    let kept = filter_pilot_distance(pilots, &dists, 200);
    let cids: Vec<u64> = kept.iter().map(|p| p.cid).collect();
    assert_eq!(cids, vec![2]);
}

#[test]
fn filter_of_empty_list_is_empty() {
    let kept = filter_pilot_distance(Vec::new(), &Vec::new(), 2000);
    assert!(kept.is_empty());
}

#[test]
fn cache_get_after_put_returns_value() {
    let mut app = App::new();
    assert_eq!(app.pilot_time_cached(42), None);
    app.update_pilot_time_cache(42, &RatingsData { pilot: 100, atc: 50 });
    assert_eq!(app.pilot_time_cached(42), Some(RatingsData { pilot: 100, atc: 50 }));
}

#[test]
fn cache_second_put_wins() {
    let mut app = App::new();
    app.update_pilot_time_cache(42, &RatingsData { pilot: 100, atc: 50 });
    app.update_pilot_time_cache(42, &RatingsData { pilot: 700, atc: 50 });
    assert_eq!(app.pilot_time_cached(42), Some(RatingsData { pilot: 700, atc: 50 }));
}

#[test]
fn misses_are_uncached_ids_once_each() {
    let mut app = App::new();
    app.update_pilot_time_cache(2, &RatingsData { pilot: 1, atc: 0 });
    // Pilot 3 appears twice; it must be fetched at most once.
    let in_range = vec![pilot(1, "A"), pilot(2, "B"), pilot(3, "C"), pilot(3, "C2")];
    let misses = app.cycle_misses(&in_range);
    assert_eq!(misses, vec![1, 3]);
}

#[test]
fn misses_of_fully_cached_set_are_empty() {
    let mut app = App::new();
    app.update_pilot_time_cache(1, &RatingsData { pilot: 1, atc: 0 });
    app.update_pilot_time_cache(2, &RatingsData { pilot: 2, atc: 0 });
    let in_range = vec![pilot(1, "A"), pilot(2, "B")];
    assert!(app.cycle_misses(&in_range).is_empty());
}

#[test]
fn sort_orders_ascending_by_pilot_time() {
    let rows = vec![ranked(1, "A", 300), ranked(2, "B", 100), ranked(3, "C", 200)];
    let sorted = sort_by_experience(rows);
    let cids: Vec<u64> = sorted.iter().map(|r| r.pilot.cid).collect();
    assert_eq!(cids, vec![2, 3, 1]);
}

#[test]
fn sort_keeps_duplicate_values() {
    let rows = vec![ranked(1, "A", 100), ranked(2, "B", 100), ranked(3, "C", 50)];
    let sorted = sort_by_experience(rows);
    assert_eq!(sorted.len(), 3);
    assert_eq!(sorted[0].pilot.cid, 3);
    let mut tail: Vec<u64> = sorted[1..].iter().map(|r| r.pilot.cid).collect();
    tail.sort_unstable();
    assert_eq!(tail, vec![1, 2]);
    assert!(sorted[1].stat.pilot == 100 && sorted[2].stat.pilot == 100);
}

#[test]
fn reanchor_none_stays_none() {
    let prev = vec![ranked(5, "A", 1)];
    let next = vec![ranked(5, "A", 1)];
    assert_eq!(reanchor(None, &prev, &next), None);
}

#[test]
fn reanchor_follows_identity_across_reorder() {
    let prev = vec![ranked(5, "A", 1), ranked(7, "B", 2), ranked(9, "C", 3)];
    let next = vec![ranked(9, "C", 3), ranked(5, "A", 1), ranked(7, "B", 2)];
    assert_eq!(reanchor(Some(0), &prev, &next), Some(1));
    assert_eq!(reanchor(Some(1), &prev, &next), Some(2));
    assert_eq!(reanchor(Some(2), &prev, &next), Some(0));
}

#[test]
fn reanchor_absent_identity_is_none() {
    let prev = vec![ranked(5, "A", 1), ranked(7, "B", 2)];
    let next = vec![ranked(7, "B", 2)];
    assert_eq!(reanchor(Some(0), &prev, &next), None);
}

#[test]
fn reanchor_out_of_range_index_is_none() {
    let prev = vec![ranked(5, "A", 1)];
    let next = vec![ranked(5, "A", 1)];
    assert_eq!(reanchor(Some(3), &prev, &next), None);
}

#[test]
fn scenario_two_of_three_in_range_sorted() {
    // Live fetch returns 3 pilots, 2 within radius; both are cache misses;
    // both experience fetches succeed; the result has 2 rows sorted
    // ascending by experience.
    let mut app = App::new();
    let live = vec![pilot(1, "AAL1"), pilot(2, "AAL2"), pilot(3, "AAL3")];
    let dists: Vec<u64> = vec![500, 90_000, 1200];
    let in_range = filter_pilot_distance(live, &dists, 2000);
    assert_eq!(in_range.len(), 2);

    let misses = app.cycle_misses(&in_range);
    assert_eq!(misses, vec![1, 3]);

    // The caller fetches each miss, concurrently; both succeed here.
    let fetched: Vec<(u64, RatingsData)> = vec![
        (1, RatingsData { pilot: 900, atc: 10 }),
        (3, RatingsData { pilot: 250, atc: 0 }),
    ];
    let rows = app.run_cycle(&Vec::new(), in_range, fetched);
    let cids: Vec<u64> = rows.iter().map(|r| r.pilot.cid).collect();
    assert_eq!(cids, vec![3, 1]);
    assert!(rows[0].stat.pilot <= rows[1].stat.pilot);
    assert!(!app.cycle_failed());
}

#[test]
fn scenario_second_cycle_is_all_cache_hits() {
    // A second cycle over the same two pilots plans zero experience fetches
    // and reproduces the same rows from the cache alone.
    let mut app = App::new();
    let in_range = vec![pilot(1, "AAL1"), pilot(3, "AAL3")];
    let fetched: Vec<(u64, RatingsData)> = vec![
        (1, RatingsData { pilot: 900, atc: 10 }),
        (3, RatingsData { pilot: 250, atc: 0 }),
    ];
    let rows1 = app.run_cycle(&Vec::new(), in_range, fetched);

    let in_range_again = vec![pilot(1, "AAL1"), pilot(3, "AAL3")];
    let misses = app.cycle_misses(&in_range_again);
    assert!(misses.is_empty());

    let rows2 = app.run_cycle(&rows1, in_range_again, Vec::new());
    let cids1: Vec<u64> = rows1.iter().map(|r| r.pilot.cid).collect();
    let cids2: Vec<u64> = rows2.iter().map(|r| r.pilot.cid).collect();
    assert_eq!(cids1, cids2);
    assert_eq!(rows1[0].stat, rows2[0].stat);
    assert_eq!(rows1[1].stat, rows2[1].stat);
}

#[test]
fn scenario_selected_pilot_leaves_range() {
    // The selected pilot (row 0) is absent from the next cycle's filtered
    // set; the new selection is none.
    let mut app = App::new();
    let in_range = vec![pilot(1, "AAL1"), pilot(3, "AAL3")];
    let fetched: Vec<(u64, RatingsData)> = vec![
        (1, RatingsData { pilot: 100, atc: 0 }),
        (3, RatingsData { pilot: 200, atc: 0 }),
    ];
    let rows1 = app.run_cycle(&Vec::new(), in_range, fetched);
    assert_eq!(rows1[0].pilot.cid, 1);
    app.down(rows1.len());
    assert_eq!(app.selected_index(), Some(0));

    // Pilot 1 left the radius; only pilot 3 remains.
    let rows2 = app.run_cycle(&rows1, vec![pilot(3, "AAL3")], Vec::new());
    assert_eq!(rows2.len(), 1);
    assert_eq!(app.selected_index(), None);
}

#[test]
fn scenario_selection_survives_when_pilot_stays() {
    let mut app = App::new();
    let fetched: Vec<(u64, RatingsData)> = vec![
        (1, RatingsData { pilot: 100, atc: 0 }),
        (3, RatingsData { pilot: 200, atc: 0 }),
    ];
    let rows1 = app.run_cycle(&Vec::new(), vec![pilot(1, "A"), pilot(3, "C")], fetched);
    app.down(rows1.len());
    app.down(rows1.len());
    assert_eq!(app.selected_index(), Some(1));
    assert_eq!(rows1[1].pilot.cid, 3);

    // Pilot 3's statistic is refetched higher, so it moves to row 0... it
    // was already last; give pilot 1 a higher value instead so the order
    // flips and pilot 3 lands on row 0.
    let refetched: Vec<(u64, RatingsData)> = vec![(1, RatingsData { pilot: 900, atc: 0 })];
    let rows2 = app.run_cycle(&rows1, vec![pilot(1, "A"), pilot(3, "C")], refetched);
    assert_eq!(rows2[0].pilot.cid, 3);
    assert_eq!(app.selected_index(), Some(0));
}

#[test]
fn scenario_failed_cycle_changes_nothing() {
    // The live fetch fails; the previous result set and selection stay
    // unchanged and a failure notification is raised.
    let mut app = App::new();
    let fetched: Vec<(u64, RatingsData)> = vec![
        (1, RatingsData { pilot: 100, atc: 0 }),
        (3, RatingsData { pilot: 200, atc: 0 }),
    ];
    let rows = app.run_cycle(&Vec::new(), vec![pilot(1, "A"), pilot(3, "C")], fetched);
    app.down(rows.len());
    let selected_before = app.selected_index();
    assert!(!app.cycle_failed());

    // The live fetch failed: no new rows are computed, the caller keeps
    // displaying `rows`, and the failure is noted.
    app.note_cycle_failure();
    assert!(app.cycle_failed());
    assert_eq!(app.selected_index(), selected_before);
    assert_eq!(app.pilot_time_cached(1), Some(RatingsData { pilot: 100, atc: 0 }));

    // The next successful cycle clears the note.
    let rows2 = app.run_cycle(&rows, vec![pilot(1, "A"), pilot(3, "C")], Vec::new());
    assert!(!app.cycle_failed());
    assert_eq!(rows2.len(), 2);
}

#[test]
fn failed_experience_fetch_drops_only_that_pilot() {
    // Two misses, one fetch fails: the cycle's rows hold only the resolved
    // pilot, and the failed one is planned again next cycle.
    let mut app = App::new();
    let in_range = vec![pilot(1, "A"), pilot(3, "C")];
    let misses = app.cycle_misses(&in_range);
    assert_eq!(misses, vec![1, 3]);
    // Only pilot 1's fetch succeeded.
    let fetched: Vec<(u64, RatingsData)> = vec![(1, RatingsData { pilot: 100, atc: 0 })];
    let rows = app.run_cycle(&Vec::new(), in_range, fetched);
    assert_eq!(rows.len(), 1);
    assert_eq!(rows[0].pilot.cid, 1);
    // Pilot 3 is still a miss next cycle.
    let misses2 = app.cycle_misses(&vec![pilot(1, "A"), pilot(3, "C")]);
    assert_eq!(misses2, vec![3]);
}
