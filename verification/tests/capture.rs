use insta_keyframes::error::AppError;
use insta_keyframes::insta360::files::{check_pair_files, telemetry_file, PairFile};
use insta_keyframes::imu::filters::sample_order;
use insta_keyframes::imu::orientation::orientation_index_at;
use insta_keyframes::imu::timeline::{fallback_timestamps, shift_to_zero};
use insta_keyframes::insta360::files::{extension_of, is_video_file, pick_lens_pair, resolve_pair, PairRequest};
use insta_keyframes::insta360::sync::{lens_skew, synchronize};
use insta_keyframes::insta360::telemetry::{detect_camera_model, is_telemetry_trailer, Insta360TelemetrySource};
use insta_keyframes::timestamps::{ns_to_us, us_to_ns};
use std::path::Path;

fn names(v: &[&str]) -> Vec<String> {
    v.iter().map(|s| s.to_string()).collect()
}

fn chars(s: &str) -> Vec<char> {
    s.chars().collect()
}

#[test]
fn timestamp_conversions() {
    assert_eq!(us_to_ns(1500), 1_500_000);
    assert_eq!(ns_to_us(1_500_999), 1500);
    assert_eq!(ns_to_us(-1_999), -1);
    assert_eq!(ns_to_us(us_to_ns(-42)), -42);
}

#[test]
fn extensions_like_path() {
    for n in ["a.insv", "a.b.MP4", ".insv", "noext", "a.", "..", "x..mov", ".a.mov"] {
        let expected = Path::new(n).extension().and_then(|e| e.to_str()).map(|e| e.to_string());
        let got = extension_of(&chars(n)).map(|v| v.into_iter().collect::<String>());
        assert_eq!(got, expected, "name {n:?}");
    }
    assert!(is_video_file(&chars("VID_1_00_1.INSV")));
    assert!(is_video_file(&chars("clip.Mov")));
    assert!(!is_video_file(&chars("clip.mp3")));
    assert!(!is_video_file(&chars(".insv")));
}

#[test]
fn lens_pair_by_name() {
    let files = names(&[
        "VID_20250731_222121_10_019.insv",
        "notes.txt",
        "VID_20250731_222121_00_019.insv",
        "VID_20250731_111111_00_018.insv",
    ]);
    let p = pick_lens_pair(&files).unwrap();
    assert!(p.paired_by_name);
    assert_eq!(p.lens_a, "VID_20250731_222121_00_019.insv");
    assert_eq!(p.lens_b, "VID_20250731_222121_10_019.insv");
}

#[test]
fn lens_pair_fallback_first_two_by_name() {
    let files = names(&["c.mp4", "b.mov", "a.txt", "d.insv"]);
    let p = pick_lens_pair(&files).unwrap();
    assert!(!p.paired_by_name);
    assert_eq!((p.lens_a.as_str(), p.lens_b.as_str()), ("b.mov", "c.mp4"));
}

#[test]
fn lens_pair_too_few_videos() {
    assert_eq!(pick_lens_pair(&names(&["a.insv", "b.txt"])).unwrap_err(), 1);
    assert_eq!(pick_lens_pair(&names(&[])).unwrap_err(), 0);
}

#[test]
fn resolve_pair_requests() {
    let s = |x: &str| Some(x.to_string());
    assert!(matches!(resolve_pair(&s("a"), &s("b"), &s("d")), PairRequest::Files(a, b) if a == "a" && b == "b"));
    assert!(matches!(resolve_pair(&s("a"), &None, &s("d")), PairRequest::Directory(d) if d == "d"));
    assert!(matches!(resolve_pair(&None, &None, &None), PairRequest::Missing));
}

#[test]
fn sync_durations() {
    assert_eq!(synchronize(10_000_000, 9_958_000, 50).unwrap().duration_us, 9_958_000);
    assert_eq!(synchronize(0, 0, 50).unwrap().duration_us, 200_000_000);
    assert_eq!(synchronize(-5, 100, 50).unwrap().duration_us, 200_000_000);
    let k = lens_skew(10_000_000, 9_958_000, 50);
    assert_eq!(k.skew_us, 42_000);
    assert!(!k.exceeds_tolerance);
    assert!(lens_skew(0, 60_000, 50).exceeds_tolerance);
}

#[test]
fn telemetry_trailer() {
    assert!(is_telemetry_trailer(b"8db42d694ccc418790edff439fe026bf"));
    assert!(!is_telemetry_trailer(b"8db42d694ccc418790edff439fe026bg"));
    assert!(!is_telemetry_trailer(b"8db42d"));
}

#[test]
fn telemetry_source_state() {
    let mut src = Insta360TelemetrySource::new("/data/VID_00.insv");
    assert_eq!(src.path(), "/data/VID_00.insv");
    assert_eq!(src.camera_model(), None);
    src.set_camera_model(Some("Insta360 X3".to_string()));
    assert_eq!(src.camera_model().as_deref(), Some("Insta360 X3"));
    assert_eq!(detect_camera_model("/data/VID_00.insv"), None);
}

#[test]
fn test_dedup_and_sort() {
    let ts = vec![2000, 1000, 1000];
    let order = sample_order(&ts, &vec![true, true, true], true);
    assert_eq!(order.len(), 2);
    assert_eq!(ts[order[0]], 1000);
    assert_eq!(ts[order[1]], 2000);
    assert_eq!(order, vec![1, 0]);
}

#[test]
fn sample_order_stable_and_filtered() {
    let ts = vec![5, 3, 5, 1, 3];
    assert_eq!(sample_order(&ts, &vec![true; 5], false), vec![3, 1, 4, 0, 2]);
    assert_eq!(sample_order(&ts, &vec![true, false, true, true, true], true), vec![3, 4, 0]);
}

#[test]
fn orientation_lookup() {
    let ts = vec![0, 10, 20, 30];
    assert_eq!(orientation_index_at(&ts, 20), Some(2));
    assert_eq!(orientation_index_at(&ts, 25), Some(2));
    assert_eq!(orientation_index_at(&ts, -5), Some(0));
    assert_eq!(orientation_index_at(&ts, 100), Some(3));
    assert_eq!(orientation_index_at(&vec![], 1), None);
}

#[test]
fn timelines() {
    assert_eq!(shift_to_zero(&vec![100, 150, 300]), vec![0, 50, 200]);
    assert_eq!(shift_to_zero(&vec![]), Vec::<i64>::new());
    let f = fallback_timestamps(25_000);
    assert_eq!(f, vec![0, 10_000, 20_000]);
    assert_eq!(fallback_timestamps(20_000), vec![0, 10_000]);
    assert_eq!(fallback_timestamps(0).len(), 3000);
}

#[test]
fn lens_pair_ignores_listing_order() {
    let listing = [
        "VID_1_10_002.insv",
        "VID_1_00_001.insv",
        "VID_1_10_001.insv",
        "VID_0_00_009.mp4",
        "readme.md",
    ];
    let p = pick_lens_pair(&names(&listing)).unwrap();
    let mut reversed = listing.to_vec();
    reversed.reverse();
    let q = pick_lens_pair(&names(&reversed)).unwrap();
    assert_eq!((p.lens_a.as_str(), p.lens_b.as_str()), ("VID_1_00_001.insv", "VID_1_10_001.insv"));
    assert_eq!((q.lens_a, q.lens_b, q.paired_by_name), (p.lens_a, p.lens_b, p.paired_by_name));
}

#[test]
fn pair_file_checks_in_order() {
    assert!(matches!(check_pair_files("a.insv", "b.insv", false, false, false),
        Err(AppError::InvalidInput(m)) if m == "video-a not found: a.insv"));
    assert!(matches!(check_pair_files("a.insv", "b.insv", true, false, true),
        Err(AppError::MissingLens(m)) if m == "video-b not found: b.insv"));
    assert!(matches!(check_pair_files("a.insv", "a.insv", true, true, true),
        Err(AppError::InvalidInput(m)) if m == "video-a and video-b are the same file"));
    assert!(check_pair_files("a.insv", "b.insv", true, true, false).is_ok());
    assert_eq!(telemetry_file(true, true), Some(PairFile::A));
    assert_eq!(telemetry_file(false, true), Some(PairFile::B));
    assert_eq!(telemetry_file(false, false), None);
}
