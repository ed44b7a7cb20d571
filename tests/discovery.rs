use volume_link::discovery::{Race, RaceStep, Scan, ScanStep};
use volume_link::order::{name_before, scan_order};

fn names(list: &[&str]) -> Vec<String> {
    list.iter().map(|s| s.to_string()).collect()
}

#[test]
fn sequential_scan_tries_com5_first() {
    let mut scan = Scan::new(&names(&["COM3", "COM5"]));
    assert_eq!(scan.current(), ScanStep::Probe("COM5".to_string()));
    assert_eq!(scan.on_probe_result(true), ScanStep::Found("COM5".to_string()));
}

#[test]
fn sequential_scan_exhausts() {
    let mut scan = Scan::new(&names(&["a", "c", "b"]));
    assert_eq!(scan.current(), ScanStep::Probe("c".to_string()));
    assert_eq!(scan.on_probe_result(false), ScanStep::Probe("b".to_string()));
    assert_eq!(scan.on_probe_result(false), ScanStep::Probe("a".to_string()));
    assert_eq!(scan.on_probe_result(false), ScanStep::NotFound);
    assert_eq!(scan.on_probe_result(false), ScanStep::NotFound);
}

#[test]
fn empty_scan_finds_nothing() {
    let scan = Scan::new(&Vec::new());
    assert_eq!(scan.current(), ScanStep::NotFound);
}

#[test]
fn names_order_like_strings() {
    let cases = ["", "a", "ab", "b", "COM10", "COM3", "/dev/ttyUSB0", "é", "z"];
    for a in cases {
        for b in cases {
            assert_eq!(name_before(a, b), a < b, "{a} {b}");
        }
    }
}

#[test]
fn scan_order_is_descending_permutation() {
    let list = names(&["COM3", "COM10", "COM5", "COM1", "COM5"]);
    let order = scan_order(&list);
    let sorted: Vec<&str> = order.iter().map(|&i| list[i].as_str()).collect();
    assert_eq!(sorted, vec!["COM5", "COM5", "COM3", "COM10", "COM1"]);
    let mut seen = order.clone();
    seen.sort();
    assert_eq!(seen, vec![0, 1, 2, 3, 4]);
}

#[test]
fn race_single_winner_any_order() {
    let mut race = Race::new(4);
    assert_eq!(race.on_probe_done(2, false), RaceStep::Pending);
    assert_eq!(race.on_probe_done(0, false), RaceStep::Pending);
    assert_eq!(race.on_probe_done(3, true), RaceStep::Won(3));
    assert_eq!(race.unreported(), vec![1]);
    assert_eq!(race.on_probe_done(1, false), RaceStep::Discard);
    assert!(!race.is_exhausted());
}

#[test]
fn race_late_match_is_discarded() {
    let mut race = Race::new(3);
    assert_eq!(race.on_probe_done(1, true), RaceStep::Won(1));
    assert_eq!(race.on_probe_done(0, true), RaceStep::Discard);
    assert_eq!(race.unreported(), vec![0, 2]);
}

#[test]
fn race_exhaustion() {
    let mut race = Race::new(3);
    assert_eq!(race.on_probe_done(1, false), RaceStep::Pending);
    assert_eq!(race.on_probe_done(1, false), RaceStep::Discard);
    assert_eq!(race.on_probe_done(2, false), RaceStep::Pending);
    assert!(!race.is_exhausted());
    assert_eq!(race.on_probe_done(0, false), RaceStep::Exhausted);
    assert!(race.is_exhausted());
    assert!(race.unreported().is_empty());
}

#[test]
fn race_without_candidates_is_exhausted() {
    assert!(Race::new(0).is_exhausted());
    let mut race = Race::new(0);
    assert_eq!(race.on_probe_done(0, true), RaceStep::Discard);
}
