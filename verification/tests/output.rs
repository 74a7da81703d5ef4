use insta_keyframes::output::images::{colmap_image_name, frame_paths, join_path, lens_image_name};
use insta_keyframes::output::naming::format_zero_padded;
use std::path::PathBuf;

#[test]
fn paths_nested() {
    let root = PathBuf::from("/tmp/out");
    let (a, b) = frame_paths(root.to_str().unwrap(), 1, false);
    assert_eq!(PathBuf::from(a), PathBuf::from("/tmp/out/frames/000001/lens_a.jpg"));
    assert_eq!(PathBuf::from(b), PathBuf::from("/tmp/out/frames/000001/lens_b.jpg"));
}

#[test]
fn paths_flat() {
    let root = PathBuf::from("/tmp/out");
    let (a, _b) = frame_paths(root.to_str().unwrap(), 2, true);
    assert_eq!(PathBuf::from(a), PathBuf::from("/tmp/out/frames/000002_a.jpg"));
}

#[test]
fn paths_flat_second_lens_and_exact_text() {
    let (a, b) = frame_paths("/tmp/out", 2, true);
    assert_eq!(a, "/tmp/out/frames/000002_a.jpg");
    assert_eq!(b, "/tmp/out/frames/000002_b.jpg");
    let (a, b) = frame_paths("out/", 1234567, false);
    assert_eq!(a, "out/frames/1234567/lens_a.jpg");
    assert_eq!(b, "out/frames/1234567/lens_b.jpg");
}

#[test]
fn distinct_frames_get_distinct_paths() {
    let (a1, b1) = frame_paths("/p", 10, false);
    let (a2, b2) = frame_paths("/p", 100, false);
    assert_ne!(a1, a2);
    assert_ne!(b1, b2);
    assert_ne!(a1, b1);
}

#[test]
fn join_path_matches_pathbuf() {
    for (base, rel) in [("/tmp/out", "frames"), ("/tmp/out/", "frames"), ("", "frames"), ("/tmp", "/abs/x"), ("rel", "a/b")] {
        let joined = join_path(base, rel);
        assert_eq!(joined, PathBuf::from(base).join(rel).to_str().unwrap());
    }
}

#[test]
fn zero_padding() {
    assert_eq!(format_zero_padded(1, 6), "000001");
    assert_eq!(format_zero_padded(0, 3), "000");
    assert_eq!(format_zero_padded(1234567, 6), "1234567");
    assert_eq!(format_zero_padded(42, 0), "42");
    assert_eq!(format_zero_padded(u64::MAX, 6), u64::MAX.to_string());
    for n in [0u64, 7, 10, 99, 100, 65535] {
        assert_eq!(format_zero_padded(n, 8), format!("{:08}", n));
    }
}

#[test]
fn lens_image_and_database_names() {
    assert_eq!(lens_image_name(1), "00000001.jpg");
    assert_eq!(lens_image_name(123456789), "123456789.jpg");
    assert_eq!(colmap_image_name(0, "00000001.jpg"), "cam0/00000001.jpg");
    assert_eq!(colmap_image_name(12, "x.jpg"), "cam12/x.jpg");
}
