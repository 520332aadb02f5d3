use ufsc_schedule::cache::{cache_is_fresh, reference_artifact_path, FRESHNESS_SECS};
use ufsc_schedule::campus::Semester;

const DAY: u64 = 24 * 60 * 60;

#[test]
fn missing_artifact_is_stale() {
    assert!(!cache_is_fresh(false, None));
}

#[test]
fn two_day_old_artifact_is_fresh() {
    assert!(cache_is_fresh(false, Some(2 * DAY)));
}

#[test]
fn forced_scrape_is_stale() {
    assert!(!cache_is_fresh(true, Some(2 * DAY)));
}

#[test]
fn four_day_old_artifact_is_stale() {
    assert!(!cache_is_fresh(false, Some(4 * DAY)));
}

#[test]
fn threshold_is_three_days_exclusive() {
    assert_eq!(FRESHNESS_SECS, 3 * DAY);
    assert!(cache_is_fresh(false, Some(3 * DAY - 1)));
    assert!(!cache_is_fresh(false, Some(3 * DAY)));
}

#[test]
fn reference_artifact_is_the_flo_file() {
    let s = Semester::new("20251".to_string());
    assert_eq!(reference_artifact_path(&s), "../../data/schedule/20251-FLO.json");
}
