use insta_keyframes::image::clean::{mode_fill_colour, clean_mode, masked_rgba, paint_masked, CleanMode};
use insta_keyframes::image::resize::resize_mask;
use insta_keyframes::image::DecodedImage;
use insta_keyframes::mask::combine::combine_masks;
use insta_keyframes::mask::feather::feather;
use insta_keyframes::mask::invert;
use insta_keyframes::mask::morphology::{close, dilate, erode};
use insta_keyframes::mask::rect::{fill_rect, rect_mask};
use insta_keyframes::objects::prompt::{DummyPromptSegmenter, PromptableSegmenter};
use insta_keyframes::objects::segmenter::{DummyRoiSegmenter, RoiSegmenter};

#[test]
fn combine_union_minus_keep() {
    let base = vec![(vec![255, 0, 0, 200], 2, 2), (vec![0, 128, 0, 0], 2, 2)];
    let keep = vec![(vec![0, 0, 0, 255], 2, 2)];
    assert_eq!(combine_masks(&base, &keep, 2, 2), vec![255, 255, 0, 0]);
    assert_eq!(combine_masks(&[], &[], 3, 1), vec![0, 0, 0]);
    // 127 does not mark, 128 does
    assert_eq!(combine_masks(&[(vec![127, 128], 2, 1)], &[], 2, 1), vec![0, 255]);
}

#[test]
fn combine_resizes_masks_of_another_size() {
    // a 1x1 mask covers the whole 2x2 frame once resized; a 4x4 keep mask clears its
    // top-left quarter
    let base = vec![(vec![255], 1, 1)];
    let mut k = vec![0u8; 16];
    for (x, y) in [(0, 0), (1, 0), (0, 1), (1, 1)] {
        k[y * 4 + x] = 255;
    }
    let keep = vec![(k, 4, 4)];
    assert_eq!(combine_masks(&base, &keep, 2, 2), vec![0, 255, 255, 255]);
}

#[test]
fn invert_swaps_and_is_involution() {
    let m = vec![0u8, 255, 10, 200];
    let i = invert(&m);
    assert_eq!(i, vec![255, 0, 245, 55]);
    assert_eq!(invert(&i), m);
}

#[test]
fn dilate_grows_foreground() {
    let m = vec![0, 0, 0, 0, 0, 0, 255, 0, 0, 0, 0, 0, 0, 0, 0, 0];
    // 4x4, pixel (2,1) set
    let d = dilate(&m, 4, 4, 1);
    assert_eq!(d, vec![0, 255, 255, 255, 0, 255, 255, 255, 0, 255, 255, 255, 0, 0, 0, 0]);
    assert_eq!(dilate(&m, 4, 4, 0), m);
}

#[test]
fn erode_shrinks_foreground() {
    let m = vec![255u8; 16];
    let mut m2 = m.clone();
    m2[0] = 0;
    let e = erode(&m2, 4, 4, 1);
    assert_eq!(e, vec![0, 0, 255, 255, 0, 0, 255, 255, 255, 255, 255, 255, 255, 255, 255, 255]);
    assert_eq!(erode(&m2, 4, 4, 0), m2);
}

#[test]
fn close_fills_gap() {
    // 5x1 with a one-pixel hole
    let m = vec![255, 255, 0, 255, 255];
    assert_eq!(close(&m, 5, 1, 1), vec![255, 255, 255, 255, 255]);
    assert_eq!(close(&m, 5, 1, 0), m);
}

#[test]
fn closing_keeps_marks_and_is_idempotent() {
    // 4x4 with two marks three columns apart
    let mut m = vec![0u8; 16];
    m[4] = 255;
    m[7] = 200;
    let c = close(&m, 4, 4, 1);
    assert!(m.iter().zip(&c).all(|(a, b)| *a == 0 || *b != 0));
    assert!(c.iter().all(|v| *v == 0 || *v == 255));
    assert_eq!(close(&c, 4, 4, 1), c);
}

#[test]
fn closing_blanks_once_distances_saturate() {
    // with radius >= width + height every distance saturates: dilation fills the image
    // and erosion then clears it
    assert_eq!(close(&[255, 0, 0, 0], 2, 2, 4), vec![0, 0, 0, 0]);
    assert_eq!(dilate(&[0, 0, 0, 0], 2, 2, 4), vec![255, 255, 255, 255]);
}

#[test]
fn feather_dilates_by_half_radius() {
    let m = vec![0, 0, 255, 0, 0];
    assert_eq!(feather(&m, 5, 1, 0), m);
    assert_eq!(feather(&m, 5, 1, 1), m);
    assert_eq!(feather(&m, 5, 1, 2), vec![0, 255, 255, 255, 0]);
    assert_eq!(feather(&m, 5, 1, 5), vec![255, 255, 255, 255, 255]);
}

#[test]
fn rect_masks() {
    assert_eq!(fill_rect(3, 2, 1, 0, 3, 1), vec![0, 255, 255, 0, 0, 0]);
    assert_eq!(rect_mask(1, 1, 10, 10, 3, 3), vec![0, 0, 0, 0, 255, 255, 0, 255, 255]);
    assert_eq!(rect_mask(5, 5, 1, 1, 3, 3), vec![0; 9]);
}

#[test]
fn resize_mask_nearest() {
    let m = vec![0, 255, 255, 0];
    assert_eq!(resize_mask(&m, 2, 2, 2, 2), m);
    let r = resize_mask(&m, 2, 2, 4, 4);
    assert_eq!(r.len(), 16);
    assert_eq!((r[0], r[3], r[12], r[15]), (0, 255, 255, 0));
    let s = resize_mask(&m, 2, 2, 1, 1);
    assert_eq!(s.len(), 1);
    // nearest neighbour copies source bytes: a 0/255 mask stays 0/255
    assert!(r.iter().chain(s.iter()).all(|v| *v == 0 || *v == 255));
    // an empty source gives a zeroed mask
    assert_eq!(resize_mask(&[], 0, 0, 2, 1), vec![0, 0]);
}

#[test]
fn clean_modes() {
    assert_eq!(clean_mode("transparent"), CleanMode::Transparent);
    assert_eq!(clean_mode("solid"), CleanMode::Solid);
    assert_eq!(clean_mode("blur"), CleanMode::Gray);
    assert_eq!(clean_mode("inpaint"), CleanMode::Gray);
    assert_eq!(clean_mode("Solid"), CleanMode::Gray);
    assert_eq!(mode_fill_colour(CleanMode::Solid), (255, 0, 255));
    assert_eq!(mode_fill_colour(CleanMode::Gray), (128, 128, 128));
}

#[test]
fn painting_masked_pixels() {
    let data = vec![1, 2, 3, 4, 5, 6, 7];
    let mask = vec![255, 0];
    assert_eq!(paint_masked(&data, Some(&mask), (255, 0, 255)), vec![255, 0, 255, 4, 5, 6, 7]);
    assert_eq!(paint_masked(&data, Some(&mask), (128, 128, 128)), vec![128, 128, 128, 4, 5, 6, 7]);
    assert_eq!(paint_masked(&data, None, (128, 128, 128)), data);
}

#[test]
fn rgba_with_mask_alpha() {
    let data = vec![1, 2, 3, 4, 5, 6, 7];
    let mask = vec![128, 127];
    assert_eq!(masked_rgba(&data, Some(&mask)), vec![1, 2, 3, 0, 4, 5, 6, 255]);
    assert_eq!(masked_rgba(&data, None), vec![1, 2, 3, 255, 4, 5, 6, 255]);
}

#[test]
fn dummy_segmenters() {
    let img = DecodedImage { width: 4, height: 3, data: vec![0; 36] };
    let m = DummyPromptSegmenter.segment_prompt(&img, "tripod").unwrap();
    assert_eq!(m, vec![0; 12]);
    let roi = DummyRoiSegmenter.segment_roi(&img, [3, 0, 0, 0]).unwrap();
    // padded box [1, 4) x [0, 2)
    assert_eq!(roi, vec![0, 255, 255, 255, 0, 255, 255, 255, 0, 0, 0, 0]);
}
