use geocoder::progress::{next_report, percent, report_due, REPORT_STEP};

#[test]
fn percent_rounds_down() {
    assert_eq!(percent(0, 1000), 0);
    assert_eq!(percent(1, 3), 33);
    assert_eq!(percent(2, 3), 66);
    assert_eq!(percent(999, 1000), 99);
    assert_eq!(percent(1000, 1000), 100);
    assert_eq!(percent(u64::MAX, u64::MAX), 100);
    assert_eq!(percent(u64::MAX - 1, u64::MAX), 99);
}

#[test]
fn percent_beyond_total() {
    assert_eq!(percent(300, 100), 300);
    assert_eq!(percent(u64::MAX, 1), u64::MAX);
}

#[test]
fn report_is_due_every_step_and_at_the_end() {
    assert_eq!(REPORT_STEP, 5);
    assert!(report_due(5, 0));
    assert!(!report_due(4, 0));
    assert!(report_due(17, 12));
    assert!(!report_due(16, 12));
    assert!(report_due(100, 99));
    assert!(report_due(100, 100));
    assert!(!report_due(99, 95));
    assert!(!report_due(50, u64::MAX));
}

#[test]
fn next_report_follows_a_download() {
    assert_eq!(next_report(10, 0, 0), None);
    assert_eq!(next_report(4, 100, 0), None);
    assert_eq!(next_report(5, 100, 0), Some(5));
    assert_eq!(next_report(9, 100, 5), None);
    assert_eq!(next_report(31, 100, 5), Some(31));
    assert_eq!(next_report(100, 100, 98), Some(100));
    let mut last = 0;
    let mut reports = Vec::new();
    for done in 1..=40u64 {
        if let Some(p) = next_report(done, 40, last) {
            reports.push(p);
            last = p;
        }
    }
    assert_eq!(reports, vec![5, 10, 15, 20, 25, 30, 35, 40, 45, 50, 55, 60, 65, 70, 75, 80, 85, 90, 95, 100]);
}
