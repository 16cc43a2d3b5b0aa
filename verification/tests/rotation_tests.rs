use dxclrecorder::filerotate::{
    compressed_file_name, date_of_unix_seconds, file_name, format_date, is_before, CalendarDate,
    FileRotation,
};

fn day(year: i32, month: u32, day: u32) -> CalendarDate {
    CalendarDate { year, month, day }
}

fn s(v: Vec<char>) -> String {
    v.into_iter().collect()
}

#[test]
fn date_stamp_format() {
    assert_eq!(s(format_date(&day(2024, 3, 5))), "20240305");
    assert_eq!(s(format_date(&day(987, 12, 31))), "09871231");
    assert_eq!(s(format_date(&day(12345, 1, 1))), "123450101");
    assert_eq!(s(format_date(&day(-5, 1, 2))), "-0050102");
}

#[test]
fn date_order() {
    assert!(is_before(&day(2024, 3, 5), &day(2024, 3, 6)));
    assert!(is_before(&day(2024, 3, 31), &day(2024, 4, 1)));
    assert!(is_before(&day(2023, 12, 31), &day(2024, 1, 1)));
    assert!(!is_before(&day(2024, 3, 5), &day(2024, 3, 5)));
    assert!(!is_before(&day(2024, 3, 6), &day(2024, 3, 5)));
}

#[test]
fn file_name_templates() {
    let d = day(2024, 3, 5);
    assert_eq!(file_name(&"spots_{DATE}.json".to_string(), false, &d), "spots_20240305.json");
    assert_eq!(file_name(&"{DATE}/{DATE}.log".to_string(), false, &d), "20240305/20240305.log");
    assert_eq!(file_name(&"spots.json".to_string(), false, &d), "spots.json");
    assert_eq!(file_name(&"{DAT{DATE}".to_string(), false, &d), "{DAT20240305");
}

#[test]
fn compressed_name() {
    assert_eq!(compressed_file_name(&"a.json".to_string()), "a.json.gz");
}

#[test]
fn rotation_daily_with_compression() {
    let (mut r, plan) = FileRotation::new("spots_{DATE}.json".to_string(), true, false, true, day(2024, 3, 5));
    assert!(!plan.flush_previous);
    assert!(plan.compress.is_none());
    assert_eq!(plan.open, "spots_20240305.json");

    let w = r.write(day(2024, 3, 5), "first");
    assert!(w.rotation.is_none());
    assert_eq!(w.line, "first\n");

    let w = r.write(day(2024, 3, 6), "second");
    let p = w.rotation.unwrap();
    assert!(p.flush_previous);
    assert_eq!(
        p.compress,
        Some(("spots_20240305.json".to_string(), "spots_20240305.json.gz".to_string()))
    );
    assert_eq!(p.open, "spots_20240306.json");
    assert_eq!(w.line, "second\n");
    assert_eq!(r.current_file(), Some("spots_20240306.json".to_string()));

    // a second write on the same day does not rotate
    assert!(r.write(day(2024, 3, 6), "third").rotation.is_none());
}

#[test]
fn rotation_without_compression() {
    let (mut r, _) = FileRotation::new("d{DATE}".to_string(), true, false, false, day(2024, 12, 31));
    let p = r.write(day(2025, 1, 1), "x").rotation.unwrap();
    assert!(p.flush_previous);
    assert!(p.compress.is_none());
    assert_eq!(p.open, "d20250101");
}

#[test]
fn rotation_disabled() {
    let (mut r, plan) = FileRotation::new("d{DATE}".to_string(), false, false, true, day(2024, 3, 5));
    assert_eq!(plan.open, "d20240305");
    assert!(r.write(day(2024, 3, 9), "x").rotation.is_none());
    assert_eq!(r.current_file(), Some("d20240305".to_string()));
}

#[test]
fn clock_going_back_does_not_rotate() {
    let (mut r, _) = FileRotation::new("d{DATE}".to_string(), true, false, false, day(2024, 3, 5));
    assert!(r.write(day(2024, 3, 4), "x").rotation.is_none());
    assert_eq!(r.current_file(), Some("d20240305".to_string()));
}

#[test]
fn today_is_a_valid_date() {
    let (mut r, plan, created) =
        FileRotation::new_today("x_{DATE}".to_string(), true, false, false).unwrap();
    assert!((1..=12).contains(&created.month));
    assert!((1..=31).contains(&created.day));
    assert_eq!(plan.open, format!("x_{}", s(format_date(&created))));
    let (w, used) = r.write_now("line").unwrap();
    assert!((1..=12).contains(&used.month));
    assert!((1..=31).contains(&used.day));
    assert_eq!(w.line, "line\n");
}

#[test]
fn distinct_days_distinct_stamps() {
    let days = [day(2024, 1, 2), day(2024, 1, 20), day(2024, 12, 1), day(2042, 1, 2), day(204, 11, 2)];
    for (i, a) in days.iter().enumerate() {
        for (j, b) in days.iter().enumerate() {
            assert_eq!(format_date(a) == format_date(b), i == j);
        }
    }
}

#[test]
fn file_follows_day_over_several_writes() {
    let (mut r, _) = FileRotation::new("log-{DATE}.txt".to_string(), true, false, false, day(2024, 2, 27));
    for d in [day(2024, 2, 27), day(2024, 2, 28), day(2024, 2, 28), day(2024, 2, 29), day(2024, 3, 1)] {
        r.write(d, "x");
        assert_eq!(r.current_file(), Some(file_name(&"log-{DATE}.txt".to_string(), false, &d)));
    }
}

#[test]
fn date_in_front_of_extension() {
    let d = day(2024, 3, 5);
    assert_eq!(file_name(&"spots.json".to_string(), true, &d), "spots20240305.json");
    assert_eq!(file_name(&"spots".to_string(), true, &d), "spots20240305");
    assert_eq!(file_name(&"a.b/spots".to_string(), true, &d), "a.b/spots20240305");
    assert_eq!(file_name(&"dir/.hidden".to_string(), true, &d), "dir/.hidden20240305");
    assert_eq!(file_name(&"dir/x.tar.gz".to_string(), true, &d), "dir/x.tar20240305.gz");
    assert_eq!(file_name(&"s_{DATE}.json".to_string(), true, &d), "s_2024030520240305.json");
}

#[test]
fn dated_file_created_and_rotated() {
    let (mut r, plan) = FileRotation::new("spots.json".to_string(), true, true, true, day(2024, 3, 5));
    assert_eq!(plan.open, "spots20240305.json");
    let p = r.write(day(2024, 3, 6), "x").rotation.unwrap();
    assert_eq!(p.open, "spots20240306.json");
    assert_eq!(
        p.compress,
        Some(("spots20240305.json".to_string(), "spots20240305.json.gz".to_string()))
    );
}

#[test]
fn reopened_file_is_not_compressed() {
    let (mut r, plan) = FileRotation::new("spots.json".to_string(), true, false, true, day(2024, 3, 5));
    assert_eq!(plan.open, "spots.json");
    let p = r.write(day(2024, 3, 6), "x").rotation.unwrap();
    assert!(p.flush_previous);
    assert!(p.compress.is_none());
    assert_eq!(p.open, "spots.json");
}

#[test]
fn unix_seconds_to_date() {
    assert_eq!(date_of_unix_seconds(0), Some(day(1970, 1, 1)));
    assert_eq!(date_of_unix_seconds(1_709_596_800), Some(day(2024, 3, 5)));
    assert_eq!(date_of_unix_seconds(1_709_683_199), Some(day(2024, 3, 5)));
    assert_eq!(date_of_unix_seconds(u64::MAX), None);
}
