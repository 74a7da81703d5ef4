use insta_keyframes::calibration::calibration_is_stale;
use insta_keyframes::colmap::cameras::{camera_plan, model_id, CameraPlan};
use insta_keyframes::colmap::rigs::{has_column, rig_schema, RigSchema};
use insta_keyframes::colmap::schema::{expected_tables, missing_tables};
use insta_keyframes::config::{OutputConfig, Preset, SyncConfig};
use insta_keyframes::duration::{parse_duration_ms, parse_duration_text, parse_i64, DurationError, ParsedDuration};

fn chars(s: &str) -> Vec<char> {
    s.chars().collect()
}

fn millis(r: Result<ParsedDuration, DurationError>) -> Option<i64> {
    match r {
        Ok(ParsedDuration::Millis(v)) => Some(v),
        _ => None,
    }
}

#[test]
fn parse_i64_like_std() {
    for s in ["0", "42", "-42", "+7", "-0", "9223372036854775807", "-9223372036854775808", "9223372036854775808", "", "+", "-", "1_0", " 1", "1 ", "12a", "007", "99999999999999999999999"] {
        assert_eq!(parse_i64(&chars(s)), s.parse::<i64>().ok(), "input {s:?}");
    }
}

#[test]
fn durations() {
    assert_eq!(millis(parse_duration_ms("300ms")), Some(300));
    assert_eq!(millis(parse_duration_ms("300")), Some(300));
    assert_eq!(millis(parse_duration_ms("  2500MS ")), Some(2500));
    assert_eq!(millis(parse_duration_ms("-5")), Some(-5));
    // every Unicode white space is trimmed, as `str::trim` does
    assert_eq!(millis(parse_duration_ms("\u{3000}\t300ms\u{a0}\u{2009}")), Some(300));
    assert_eq!(millis(parse_duration_ms("\u{200b}300")), None);
    match parse_duration_ms("2.5s") {
        Ok(ParsedDuration::Seconds(t)) => assert_eq!(t, "2.5"),
        other => panic!("unexpected {other:?}"),
    }
    match parse_duration_ms(" 3S") {
        Ok(ParsedDuration::Seconds(t)) => assert_eq!(t, "3"),
        other => panic!("unexpected {other:?}"),
    }
    assert_eq!(parse_duration_ms("ms").unwrap_err(), DurationError::InvalidNumber);
    assert_eq!(parse_duration_ms("abc").unwrap_err(), DurationError::InvalidNumber);
    assert_eq!(parse_duration_ms("1.5ms").unwrap_err(), DurationError::InvalidNumber);
}

#[test]
fn ms_suffix_means_bare_number() {
    for t in ["0", "12", "-3", "x"] {
        let with_unit = format!("{t}ms");
        assert_eq!(millis(parse_duration_text(&with_unit)), millis(parse_duration_text(t)));
    }
}

#[test]
fn presets_parse_any_case_and_separator() {
    assert!(matches!(Preset::parse("indoor-walk"), Some(Preset::IndoorWalk)));
    assert!(matches!(Preset::parse("Indoor_Walk"), Some(Preset::IndoorWalk)));
    assert!(matches!(Preset::parse("VEHICLE"), Some(Preset::Vehicle)));
    assert!(matches!(Preset::parse("tripod_pan"), Some(Preset::TripodPan)));
    assert!(matches!(Preset::parse("slow-survey"), Some(Preset::SlowSurvey)));
    assert!(matches!(Preset::parse("dense_reconstruction"), Some(Preset::DenseReconstruction)));
    assert!(matches!(Preset::parse("outdoor-walk"), Some(Preset::OutdoorWalk)));
    assert!(Preset::parse("indoor walk").is_none());
    assert!(Preset::from_lowercase_name("Vehicle").is_none());
}

#[test]
fn preset_settings_table() {
    let s = Preset::Vehicle.settings();
    assert_eq!((s.rotation_threshold_deg, s.minimum_interval_ms, s.maximum_interval_ms, s.enables_visual), (8, 200, 1500, true));
    let s = Preset::DenseReconstruction.settings();
    assert_eq!((s.rotation_threshold_deg, s.minimum_interval_ms, s.maximum_interval_ms, s.enables_visual), (2, 100, 1000, false));
    let s = Preset::IndoorWalk.settings();
    assert_eq!((s.rotation_threshold_deg, s.minimum_interval_ms, s.maximum_interval_ms), (5, 300, 2500));
}

#[test]
fn config_defaults() {
    assert_eq!(SyncConfig::default().max_lens_skew_ms, 50);
    let o = OutputConfig::default_output();
    assert_eq!((o.format.as_str(), o.jpeg_quality, o.flat_naming), ("jpeg", 95, false));
}

#[test]
fn camera_model_ids() {
    assert_eq!(model_id("OPENCV"), 4);
    assert_eq!(model_id("OPENCV_FISHEYE"), 5);
    assert_eq!(model_id("FULL_OPENCV"), 12);
    assert_eq!(model_id("PINHOLE"), 0);
    assert_eq!(model_id("opencv"), 0);
}

#[test]
fn camera_plans() {
    assert_eq!(camera_plan(0, 2), CameraPlan::Insert);
    assert_eq!(camera_plan(3, 2), CameraPlan::Replace);
    assert_eq!(camera_plan(2, 2), CameraPlan::Reuse);
    assert_eq!(camera_plan(-1, 2), CameraPlan::Replace);
}

#[test]
fn rig_schemas() {
    let cols = |v: &[&str]| v.iter().map(|s| s.to_string()).collect::<Vec<_>>();
    assert_eq!(rig_schema(&cols(&["rig_id", "ref_sensor_id", "ref_sensor_type"])), RigSchema::Sensors);
    assert_eq!(rig_schema(&cols(&["rig_id", "ref_camera_id"])), RigSchema::RefCamera);
    assert_eq!(rig_schema(&cols(&["rig_id"])), RigSchema::Unsupported);
    assert!(has_column(&cols(&["a", "sensor_id"]), "sensor_id"));
    assert!(!has_column(&cols(&[]), "sensor_id"));
}

#[test]
fn schema_tables() {
    assert_eq!(expected_tables(), vec!["cameras", "images", "rigs", "frames", "keypoints", "descriptors", "matches", "two_view_geometries"]);
    let present: Vec<String> = ["images", "cameras", "matches", "extra"].iter().map(|s| s.to_string()).collect();
    assert_eq!(missing_tables(&present), vec!["rigs", "frames", "keypoints", "descriptors", "two_view_geometries"]);
}

#[test]
fn calibration_staleness() {
    let v = |s: &[&str]| s.iter().map(|x| x.to_string()).collect::<Vec<_>>();
    assert!(!calibration_is_stale(&v(&["OPENCV_FISHEYE", "OPENCV_FISHEYE"]), &v(&["OPENCV_FISHEYE", "OPENCV_FISHEYE"])));
    assert!(calibration_is_stale(&v(&["OPENCV", "OPENCV"]), &v(&["OPENCV_FISHEYE", "OPENCV_FISHEYE"])));
    assert!(calibration_is_stale(&v(&["OPENCV_FISHEYE"]), &v(&["OPENCV_FISHEYE", "OPENCV_FISHEYE"])));
}
