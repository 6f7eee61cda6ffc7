use cube_tui::stats::{window_avg, History, SolveRecord};

fn history_of(times: &[u64]) -> History {
    let mut h = History::new();
    for &t in times {
        h.insert(t);
    }
    h
}

#[test]
fn trimmed_average_of_five_drops_best_and_worst() {
    let h = history_of(&[1000, 2000, 3000, 4000, 100000]);
    let last = h.get(4).unwrap();
    assert_eq!(last.ao5, Some(3000));
    assert_eq!(last.ao12, None);
}

#[test]
fn averages_undefined_until_enough_solves() {
    let times: Vec<u64> = (1..=15).map(|i| i * 1000).collect();
    let h = history_of(&times);
    for i in 0..15 {
        let r = h.get(i).unwrap();
        assert_eq!(r.ao5.is_none(), i < 4, "ao5 at {}", i);
        assert_eq!(r.ao12.is_none(), i < 11, "ao12 at {}", i);
    }
    // window 8..=12 s: drop 8 and 12, mean of 9, 10, 11
    assert_eq!(h.get(11).unwrap().ao5, Some(10000));
    // window 1..=12 s: drop 1 and 12, mean of 2..=11 = 6.5 s
    assert_eq!(h.get(11).unwrap().ao12, Some(6500));
}

#[test]
fn aggregates_exact_values() {
    let h = history_of(&[5000, 3000, 4000, 9000, 6000]);
    let s = h.stats();
    assert_eq!(s.pb_single, Some(3000));
    assert_eq!(s.worst, Some(9000));
    assert_eq!(s.mean, Some(5400));
    assert_eq!(s.pb_ao5, Some(5000));
    assert_eq!(s.pb_ao12, None);
    assert_eq!(s.ao100, None);
    assert_eq!(s.ao1k, None);
}

#[test]
fn empty_history_has_no_statistics() {
    let h = History::new();
    let s = h.stats();
    assert_eq!(h.len(), 0);
    assert_eq!(s.pb_single, None);
    assert_eq!(s.mean, None);
    assert_eq!(s.worst, None);
    assert_eq!(s.pb_ao5, None);
}

#[test]
fn average_of_hundred_and_thousand() {
    let times: Vec<u64> = (0..1000).map(|i| 1000 + (i % 10) * 100).collect();
    let h = history_of(&times[..99]);
    assert_eq!(h.stats().ao100, None);
    let h = history_of(&times[..100]);
    // ten of each of 1.0 .. 1.9 s; dropping one 1.0 and one 1.9 leaves 1.45 s
    assert_eq!(h.stats().ao100, Some(1450));
    let h = history_of(&times);
    assert_eq!(h.stats().ao1k, Some(1450));
}

#[test]
fn best_average_of_five_is_minimum_over_history() {
    let h = history_of(&[10000, 10000, 10000, 10000, 10000, 1000, 1000, 1000, 1000]);
    // the last window is 10,1,1,1,1: mean of 1,1,1
    assert_eq!(h.get(8).unwrap().ao5, Some(1000));
    assert_eq!(h.stats().pb_ao5, Some(1000));
}

#[test]
fn delete_maps_display_row_to_history_index() {
    let mut h = history_of(&[1000, 2000, 3000, 4000, 5000, 6000]);
    // row 0 is the newest solve
    let removed = h.delete(0).unwrap();
    assert_eq!(removed.time, 6000);
    // row 1 is now 4000
    let removed = h.delete(1).unwrap();
    assert_eq!(removed.time, 4000);
    let times: Vec<u64> = h.records().iter().map(|r| r.time).collect();
    assert_eq!(times, vec![1000, 2000, 3000, 5000]);
    assert_eq!(h.delete(4), None);
    assert_eq!(h.len(), 4);
}

#[test]
fn delete_recomputes_trailing_averages() {
    let mut h = history_of(&[1000, 2000, 3000, 4000, 100000, 6000]);
    assert_eq!(h.get(5).unwrap().ao5, Some(4333));
    // remove 100 s, shown at row 1
    h.delete(1);
    assert_eq!(h.get(4).unwrap().ao5, Some(3000));
    assert_eq!(h.stats().worst, Some(6000));
    assert_eq!(h.stats().pb_ao5, Some(3000));
}

#[test]
fn incremental_matches_from_scratch() {
    let mut h = History::new();
    for t in [7000u64, 3000, 9000, 4000, 5000, 8000, 2000, 6000, 1000, 12000, 11000, 10000, 13000] {
        h.insert(t);
    }
    h.delete(3);
    h.insert(4500);
    h.delete(0);
    let times: Vec<u64> = h.records().iter().map(|r| r.time).collect();
    let fresh = History::from_times(&times);
    assert_eq!(h.records(), fresh.records());
    assert_eq!(h.stats(), fresh.stats());
}

#[test]
fn window_average_direct() {
    let recs: Vec<SolveRecord> = [4000u64, 1000, 3000, 2000, 5000]
        .iter()
        .map(|&t| SolveRecord { time: t, ao5: None, ao12: None })
        .collect();
    assert_eq!(window_avg(&recs, 4, 5), Some(3000));
    assert_eq!(window_avg(&recs, 3, 5), None);
    assert_eq!(window_avg(&recs, 4, 3), Some(3000));
}
