use forest_green::compose::{generate_image, generate_night_image};
use forest_green::config::{Config, RawConfig};
use forest_green::cursor::{plan, Cursor, Timeline};
use forest_green::locations::{find_location, location_map};
use forest_green::raster::{Raster, Rgb, Roi};
use forest_green::Error;

const DAY: i64 = 1686787200; // 2023-06-15 00:00:00 UTC

fn names(list: &[&str]) -> Vec<String> {
    list.iter().map(|s| s.to_string()).collect()
}

fn day_timeline(step: i64) -> Timeline {
    Timeline { start: DAY, end: DAY + 86399, step, night_start: 0, night_end: 0 }
}

fn raw() -> RawConfig {
    RawConfig {
        images_path: "images".to_string(),
        roi: [0, 0, 4, 2],
        font_path: "font.ttf".to_string(),
        font_color: [0, 0, 0],
        location: "MC100".to_string(),
        start_date: [2023, 6, 15],
        end_date: [2023, 6, 15],
        duration: 30,
        night_times: [0, 0],
        night_color: [10, 20, 30],
    }
}

#[test]
fn switches_only_after_the_lookahead_instant() {
    // t0 = 00:00, t2 = 01:00; ticks every 20 minutes from 00:00
    let list = names(&["a_b_c_20230615_000000", "a_b_c_20230615_010000"]);
    let tl = Timeline { start: DAY, end: DAY + 2 * 3600, step: 1200, night_start: 0, night_end: 0 };
    let (frames, err) = plan(&list, &tl);
    assert_eq!(err, None);
    assert_eq!(frames.len(), 7);
    let sources: Vec<usize> = frames.iter().map(|f| f.source).collect();
    // the tick at exactly 01:00 still shows the first image
    assert_eq!(sources, vec![0, 0, 0, 0, 1, 1, 1]);
    assert_eq!(frames[4].label, "15.06.2023, 01:00:00");
    assert_eq!(frames[0].label, "15.06.2023, 00:00:00");
    // a frame shows the pixels of the input it is named after, decoded on the switch
    let pixels: Vec<usize> = frames.iter().map(|f| f.pixels).collect();
    assert_eq!(pixels, vec![0, 0, 0, 0, 1, 1, 1]);
    let decodes: Vec<bool> = frames.iter().map(|f| f.decode).collect();
    assert_eq!(decodes, vec![true, false, false, false, true, true, true]);
}

#[test]
fn plan_is_repeatable() {
    let list = names(&["a_b_c_20230615_000000", "a_b_c_20230615_010000", "a_b_c_20230615_020000"]);
    let tl = day_timeline(1800);
    let (f1, e1) = plan(&list, &tl);
    let (f2, e2) = plan(&list, &tl);
    assert_eq!(e1, e2);
    assert_eq!(f1.len(), f2.len());
    for (a, b) in f1.iter().zip(f2.iter()) {
        assert_eq!(
            (a.instant, a.source, &a.label, a.pixels, a.decode, a.night),
            (b.instant, b.source, &b.label, b.pixels, b.decode, b.night)
        );
    }
}

#[test]
fn no_images_is_an_error() {
    let (frames, err) = plan(&Vec::new(), &day_timeline(1800));
    assert!(frames.is_empty());
    assert_eq!(err, Some(Error::NoImages));
}

#[test]
fn malformed_first_name_stops_at_once() {
    let list = names(&["bad_name"]);
    let (frames, err) = plan(&list, &day_timeline(1800));
    assert!(frames.is_empty());
    assert_eq!(err, Some(Error::MalformedName("bad_name".to_string())));
}

#[test]
fn malformed_later_name_keeps_earlier_frames() {
    let list = names(&["a_b_c_20230615_000000", "a_b_c_20230615_010000", "broken"]);
    let (frames, err) = plan(&list, &day_timeline(1800));
    assert_eq!(err, Some(Error::MalformedName("broken".to_string())));
    // the second image becomes active at 01:30; the next pull meets the bad name
    assert_eq!(frames.len(), 4);
}

#[test]
fn cursor_reports_exhaustion() {
    let list = names(&["a_b_c_20230615_000000"]);
    let tl = Timeline { start: DAY, end: DAY + 10, step: 60, night_start: 0, night_end: 0 };
    let mut cursor = Cursor::new(&list, &tl).unwrap();
    let first = cursor.tick(&list, &tl).unwrap().unwrap();
    assert_eq!(first.instant, DAY);
    assert!(cursor.tick(&list, &tl).unwrap().is_none());
}

#[test]
fn end_instant_is_included() {
    let list = names(&["a_b_c_20230615_000000"]);
    let tl = Timeline { start: DAY, end: DAY + 120, step: 60, night_start: 0, night_end: 0 };
    let (frames, _) = plan(&list, &tl);
    let instants: Vec<i64> = frames.iter().map(|f| f.instant).collect();
    assert_eq!(instants, vec![DAY, DAY + 60, DAY + 120]);
}

#[test]
fn stale_lookahead_with_equal_instant_is_never_promoted() {
    let list = names(&["a_b_c_20230615_000000", "x_y_z_20230615_000000", "a_b_c_20230615_010000"]);
    let (frames, err) = plan(&list, &day_timeline(1800));
    assert_eq!(err, None);
    assert!(frames.iter().all(|f| f.source == 0));
}

#[test]
fn config_from_checks_and_converts() {
    let c = Config::from(&raw(), 12).unwrap();
    assert_eq!(c.location, "Tammela, canopy");
    assert_eq!(c.start_date, DAY);
    assert_eq!(c.end_date, DAY + 86399);
    assert_eq!(c.duration, 1800);
    assert_eq!(c.roi, Roi { x: 0, y: 0, width: 4, height: 2 });
    assert_eq!(c.night_color, Rgb { r: 10, g: 20, b: 30 });
    assert_eq!(c.line_height, 12);
    let mut r = raw();
    r.night_times = [20, 6];
    let c = Config::from(&r, 12).unwrap();
    assert_eq!((c.night_start_time, c.night_end_time), (72000, 21600));
}

#[test]
fn config_errors() {
    let mut r = raw();
    r.location = "XX1".to_string();
    assert_eq!(Config::from(&r, 12).err(), Some(Error::UnknownLocation));
    let mut r = raw();
    r.roi = [-1, 0, 4, 2];
    assert_eq!(Config::from(&r, 12).err(), Some(Error::InvalidRoi));
    let mut r = raw();
    r.roi = [0, 0, 0, 2];
    assert_eq!(Config::from(&r, 12).err(), Some(Error::InvalidRoi));
    let mut r = raw();
    r.night_times = [24, 6];
    assert_eq!(Config::from(&r, 12).err(), Some(Error::InvalidNightHours));
    let mut r = raw();
    r.end_date = [2023, 2, 29];
    assert_eq!(Config::from(&r, 12).err(), Some(Error::InvalidDate));
    let mut r = raw();
    r.duration = 0;
    assert_eq!(Config::from(&r, 12).err(), Some(Error::InvalidStep));
}

#[test]
fn location_lookup() {
    let map = location_map();
    assert_eq!(find_location(&map, "MC106"), Some("Hyytiälä, crown".to_string()));
    assert_eq!(find_location(&map, "MC117-1"), Some("Paljakka, landscape".to_string()));
    assert_eq!(find_location(&map, "MC999"), None);
}

fn source(c: Rgb) -> Raster {
    Raster { width: 4, height: 2, rows: vec![vec![c; 4]; 2] }
}

#[test]
fn day_frame_captions() {
    let c = Config::from(&raw(), 12).unwrap();
    let f = generate_image(&c, &source(Rgb { r: 1, g: 2, b: 3 }), "15.06.2023, 14:30:22").unwrap();
    assert_eq!(f.image.width, 8);
    let texts: Vec<(&str, u32, u64)> =
        f.captions.iter().map(|k| (k.text.as_str(), k.x, k.y)).collect();
    assert_eq!(
        texts,
        vec![
            ("Tammela, canopy, 15.06.2023, 14:30:22", 0, 0),
            ("Average colour of forest activity", 0, 12),
            ("Rgb([1, 2, 3])", 0, 24),
        ]
    );
}

#[test]
fn roi_outside_the_image_is_an_error() {
    let mut r = raw();
    r.roi = [1, 0, 4, 2];
    let c = Config::from(&r, 12).unwrap();
    assert!(matches!(generate_image(&c, &source(Rgb { r: 0, g: 0, b: 0 }), "x"), Err(Error::InvalidRoi)));
}

#[test]
fn night_frame_captions() {
    let c = Config::from(&raw(), 12).unwrap();
    let f = generate_night_image(&c, 4, 2, 1686839422).unwrap();
    assert_eq!(f.image.width, 8);
    assert!(f.image.rows.iter().flatten().all(|p| *p == Rgb { r: 10, g: 20, b: 30 }));
    let texts: Vec<(&str, u32, u64)> =
        f.captions.iter().map(|k| (k.text.as_str(), k.x, k.y)).collect();
    assert_eq!(
        texts,
        vec![
            ("Tammela, canopy, 15.06.2023, 14:30:22", 0, 0),
            ("Average colour of forest activity", 0, 12),
            ("Rgb([10, 20, 30])", 0, 24),
            ("Tammela, canopy, 2023-06-15, 14:30:22", 4, 0),
        ]
    );
}

fn end_to_end(night_times: [u32; 2], expect_night: bool) {
    let mut r = raw();
    r.night_times = night_times;
    let c = Config::from(&r, 12).unwrap();
    let list = names(&["x_MC100_a_20230615_010000", "x_MC100_a_20230615_020000", "x_MC100_a_20230615_030000"]);
    let (frames, err) = plan(&list, &c.timeline());
    assert_eq!(err, None);
    assert_eq!(frames.len(), 48);
    for f in &frames {
        assert_eq!(f.night, expect_night);
        let composite = if f.night {
            generate_night_image(&c, 4, 2, f.instant).unwrap()
        } else {
            generate_image(&c, &source(Rgb { r: 5, g: 5, b: 5 }), &f.label).unwrap()
        };
        assert_eq!(composite.image.width, 8);
        assert_eq!(composite.image.height, 2);
        assert!(composite.captions.len() >= 3);
        assert_eq!(composite.captions[1].text, "Average colour of forest activity");
        assert_eq!(composite.captions[1].y, 12);
        assert_eq!(composite.captions[2].y, 24);
    }
}

#[test]
fn end_to_end_always_night() {
    end_to_end([0, 0], true);
}

#[test]
fn end_to_end_equal_bounds_at_six() {
    end_to_end([6, 6], true);
}

#[test]
fn end_to_end_always_day() {
    // a window that starts after the last second of the day never holds
    let c = Config::from(&raw(), 12).unwrap();
    let tl = c.timeline();
    let day_window = Timeline { night_start: 86400, night_end: 0, ..tl };
    let list = names(&["x_MC100_a_20230615_010000", "x_MC100_a_20230615_020000", "x_MC100_a_20230615_030000"]);
    let (frames, err) = plan(&list, &day_window);
    assert_eq!(err, None);
    assert_eq!(frames.len(), 48);
    for f in &frames {
        assert!(!f.night);
        let composite = generate_image(&c, &source(Rgb { r: 5, g: 5, b: 5 }), &f.label).unwrap();
        assert_eq!(composite.image.width, 8);
        assert_eq!(composite.captions.len(), 3);
    }
}

#[test]
fn start_after_end_gives_no_frames() {
    let list = names(&["a_b_c_20230615_000000"]);
    let tl = Timeline { start: DAY + 60, end: DAY, step: 60, night_start: 0, night_end: 0 };
    let (frames, err) = plan(&list, &tl);
    assert!(frames.is_empty());
    assert_eq!(err, None);
}

#[test]
fn instants_beyond_the_calendar_are_out_of_range() {
    let c = Config::from(&raw(), 12).unwrap();
    assert!(matches!(generate_night_image(&c, 4, 2, i64::MAX), Err(Error::OutOfRange)));
    assert_eq!(
        forest_green::compose::output_file_name("a", "jpg", i64::MIN),
        Err(Error::OutOfRange)
    );
}
