use immediate_earth::paths::{bordered_file_name, date_tag, mosaic_file_name};
use immediate_earth::retention::{
    stale, stale_entries, today_tag_at, ArtifactEntry, IMAGE_EXTENSION,
};
use immediate_earth::time::{imagery_timestamp_at, CivilTime, ImageryTimestamp};

fn file(name: &str) -> ArtifactEntry {
    ArtifactEntry { name: String::from(name), is_directory: false }
}

fn directory(name: &str) -> ArtifactEntry {
    ArtifactEntry { name: String::from(name), is_directory: true }
}

#[test]
fn images_of_another_day_go_and_those_of_today_stay() {
    let entries = vec![
        file("earth_20240101_2350.png"),
        file("earth_20240101_2350_black.png"),
        file("earth_20240102_0310.png"),
        file("earth_20240102_0310_black.png"),
    ];
    assert_eq!(stale_entries(&entries, "20240102"), vec![0, 1]);
    assert_eq!(stale_entries(&entries, "20240101"), vec![2, 3]);
    assert_eq!(stale_entries(&entries, "20240103"), vec![0, 1, 2, 3]);
}

#[test]
fn directories_stay_whatever_they_are_called() {
    let entries = vec![
        directory("tiles"),
        directory("monitor_0"),
        directory("earth_20240101_2350.png"),
        directory("old.png"),
    ];
    assert_eq!(stale_entries(&entries, "20240102"), Vec::<usize>::new());
    assert!(!stale("earth_20240101_2350.png", true, "20240102"));
}

#[test]
fn only_png_images_are_swept() {
    assert!(stale("earth_20240101_2350.png", false, "20240102"));
    assert!(!stale("earth_20240101_2350.jpg", false, "20240102"));
    assert!(!stale("earth_20240101_2350.PNG", false, "20240102"));
    assert!(!stale("earth_20240101_2350", false, "20240102"));
    assert!(!stale("settings.json", false, "20240102"));
    assert!(!stale(".png", false, "20240102"));
    assert!(!stale("png", false, "20240102"));
    assert!(stale("x.png", false, "20240102"));
    assert_eq!(IMAGE_EXTENSION, "png");
}

#[test]
fn tag_anywhere_in_the_file_name_keeps_the_image() {
    assert!(!stale("20240102.png", false, "20240102"));
    assert!(!stale("a20240102b.png", false, "20240102"));
    assert!(!stale("wallpaper.20240102.png", false, "20240102"));
    assert!(stale("2024-01-02.png", false, "20240102"));
    assert!(!stale("anything.png", false, ""));
}

#[test]
fn tag_in_a_directory_of_the_path_does_not_keep_the_image() {
    assert!(stale("20240102/earth.png", false, "20240102"));
    assert!(!stale("20240101/earth_20240102.png", false, "20240102"));
    assert!(!stale("20240101/earth_20240102.png/", false, "20240102"));
    assert!(stale("earth_20240101.png/", false, "20240102"));
}

#[test]
fn stale_entries_come_in_rising_order() {
    let entries = vec![
        file("a.png"),
        directory("b.png"),
        file("c_20240102.png"),
        file("d.png"),
        file("e.txt"),
        file("f.png"),
    ];
    assert_eq!(stale_entries(&entries, "20240102"), vec![0, 3, 5]);
    assert_eq!(stale_entries(&Vec::new(), "20240102"), Vec::<usize>::new());
}

#[test]
fn mosaics_of_a_day_stay_on_that_day() {
    for (year, month, day) in [(2024, 1, 2), (1999, 12, 31), (2030, 6, 15), (987, 1, 1)] {
        let ts = ImageryTimestamp::quantize(CivilTime { year, month, day, hour: 7, minute: 45 })
            .unwrap();
        let today = date_tag(year, month, day);
        assert!(!stale(&mosaic_file_name(&ts), false, &today));
        assert!(!stale(&bordered_file_name(&ts), false, &today));
        let tomorrow = date_tag(year, month, day + 1);
        assert!(stale(&mosaic_file_name(&ts), false, &tomorrow));
        assert!(stale(&bordered_file_name(&ts), false, &tomorrow));
    }
}

#[test]
fn today_is_the_utc_day_of_the_instant() {
    // 2024-01-02 00:00:00 UTC.
    let midnight: i64 = 1_704_153_600;
    assert_eq!(today_tag_at(midnight), Some(String::from("20240102")));
    assert_eq!(today_tag_at(midnight - 1), Some(String::from("20240101")));
    assert_eq!(today_tag_at(midnight + 86_399), Some(String::from("20240102")));
    assert_eq!(today_tag_at(0), Some(String::from("19700101")));
    assert_eq!(today_tag_at(i64::MAX), None);
}

#[test]
fn mosaic_of_the_last_half_hour_of_a_day_is_swept_after_midnight() {
    // A refresh at 00:10 asks for the image of 23:40 of the day before.
    let now: i64 = 1_704_153_600 + 600;
    let ts = imagery_timestamp_at(now).unwrap();
    let today = today_tag_at(now).unwrap();
    assert_eq!(mosaic_file_name(&ts), "earth_20240101_2340.png");
    assert!(stale(&mosaic_file_name(&ts), false, &today));
}
