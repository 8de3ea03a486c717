use manga_library::chart::build_watchtime_series;
use manga_library::library::Library;
use manga_library::records::{Chart, LibraryError};

fn day(s: &str) -> String {
    s.to_string()
}

fn row(d: &str, w: u32) -> Chart {
    Chart { watchtime: w, updated_at: d.to_string() }
}

#[test]
fn two_increments_on_one_day_make_one_row() {
    let mut lib = Library::new();
    lib.update_chart_watchtime(1800, &day("2024-05-15"));
    lib.update_chart_watchtime(1800, &day("2024-05-15"));
    assert_eq!(lib.chart_rows().len(), 1);
    assert_eq!(lib.chart_rows()[0].watchtime, 3600);
    let series = lib.create_chart_stats("daily", None, "2024-05-15").unwrap();
    assert_eq!(series.len(), 7);
    // 2024-05-15 is a Wednesday: day 3 counted from Sunday.
    assert_eq!(series[3], 100);
    assert_eq!(series[3] as f32 / 100.0, 1.0);
    assert_eq!(series.iter().sum::<u64>(), 100);
}

#[test]
fn daily_series_covers_the_week_from_monday() {
    let entries = vec![row("2024-05-13", 3600), row("2024-05-19", 1800), row("2024-05-12", 7200), row("2024-05-20", 7200)];
    let series = build_watchtime_series("daily", None, "2024-05-15", &entries).unwrap();
    assert_eq!(series, vec![50, 100, 0, 0, 0, 0, 0]);
}

#[test]
fn weekly_series_by_day_of_the_current_month() {
    let entries = vec![row("2024-05-10", 7200), row("2023-05-02", 900), row("2024-04-10", 3600)];
    let series = build_watchtime_series("weekly", Some(31), "2024-05-15", &entries).unwrap();
    assert_eq!(series.len(), 30);
    assert_eq!(series[9], 200);
    assert_eq!(series[1], 0);
    assert_eq!(series.iter().sum::<u64>(), 200);
}

#[test]
fn monthly_series_sums_each_month() {
    let entries = vec![row("2024-01-03", 1800), row("2024-01-04", 1800), row("2024-03-01", 36), row("2023-01-01", 3600), row("2024-12-01", 3600)];
    let series = build_watchtime_series("monthly", None, "2024-05-15", &entries).unwrap();
    assert_eq!(series.len(), 11);
    assert_eq!(series[0], 100);
    assert_eq!(series[2], 1);
    assert_eq!(series.iter().sum::<u64>(), 101);
}

#[test]
fn rounding_to_hundredths_of_an_hour() {
    let entries = vec![row("2024-05-13", 17), row("2024-05-14", 18), row("2024-05-15", 5400)];
    let series = build_watchtime_series("daily", None, "2024-05-15", &entries).unwrap();
    assert_eq!(series[1], 0);
    assert_eq!(series[2], 1);
    assert_eq!(series[3], 150);
}

#[test]
fn series_errors() {
    let entries = vec![row("2024-05-13", 60)];
    assert_eq!(build_watchtime_series("weekly", None, "2024-05-15", &entries), Err(LibraryError::MissingDaysInMonth));
    assert_eq!(build_watchtime_series("weekly", Some(0), "2024-05-15", &entries), Err(LibraryError::MissingDaysInMonth));
    assert_eq!(build_watchtime_series("daily", None, "15/05/2024", &entries), Err(LibraryError::InvalidDate));
    let bad = vec![row("yesterday", 60)];
    assert_eq!(build_watchtime_series("monthly", None, "2024-05-15", &bad), Err(LibraryError::InvalidDate));
    assert_eq!(build_watchtime_series("yearly", None, "2024-05-15", &entries), Ok(vec![]));
}

#[test]
fn heatmap_counts_per_day() {
    let mut lib = Library::new();
    lib.update_heatmap_count(3, &day("2024-05-15"));
    lib.update_heatmap_count(4, &day("2024-05-15"));
    lib.update_heatmap_count(1, &day("2024-05-16"));
    let rows = lib.fetch_heatmap();
    assert_eq!(rows.len(), 2);
    assert_eq!(rows[0].date, "2024-05-15");
    assert_eq!(rows[0].count, 7);
    assert_eq!(rows[1].count, 1);
}
