use rgb2gif_processor::color::{
    oklab_palette_to_srgb, oklab_to_srgb, oklab_to_srgb_batch, srgb_to_oklab, srgb_to_oklab_batch, OklabColor,
    WORK_UNIT,
};

fn round_trip(r: u8, g: u8, b: u8) -> [u8; 3] {
    oklab_to_srgb(srgb_to_oklab(r, g, b))
}

#[test]
fn representative_colors_round_trip() {
    let samples = [
        [0u8, 0, 0], [255, 255, 255], [128, 128, 128], [255, 0, 0], [0, 255, 0], [0, 0, 255],
        [255, 255, 0], [0, 255, 255], [255, 0, 255], [17, 99, 201],
    ];
    for s in samples {
        let back = round_trip(s[0], s[1], s[2]);
        for c in 0..3 {
            assert!((back[c] as i32 - s[c] as i32).abs() <= 2, "{s:?} came back as {back:?}");
        }
    }
}

#[test]
fn every_gray_round_trips_within_one_level() {
    for v in 0..=255u8 {
        let back = round_trip(v, v, v);
        for c in 0..3 {
            assert!((back[c] as i32 - v as i32).abs() <= 1);
        }
    }
}

#[test]
fn working_space_reference_values() {
    assert_eq!(srgb_to_oklab(0, 0, 0), OklabColor { l: 0, a: 0, b: 0 });
    let white = srgb_to_oklab(255, 255, 255);
    assert!((white.l as i64 - WORK_UNIT).abs() <= 2 && white.a.abs() <= 2 && white.b.abs() <= 2);
    let red = srgb_to_oklab(255, 0, 0);
    assert!((red.l - 41153).abs() <= 2 && (red.a - 14737).abs() <= 2 && (red.b - 8248).abs() <= 2);
    assert!(srgb_to_oklab(0, 0, 255).b < 0);
}

#[test]
fn batch_conversions() {
    let rgba = vec![255u8, 0, 0, 10, 0, 0, 255, 20, 9];
    let colors = srgb_to_oklab_batch(&rgba);
    assert_eq!(colors.len(), 2);
    assert_eq!(colors[0], srgb_to_oklab(255, 0, 0));
    let back = oklab_to_srgb_batch(&colors);
    assert_eq!(back, vec![255, 0, 0, 255, 0, 0, 255, 255]);
    let palette = oklab_palette_to_srgb(&colors);
    assert_eq!(palette, vec![[255, 0, 0, 255], [0, 0, 255, 255]]);
}

#[test]
fn out_of_range_colors_clamp() {
    assert_eq!(oklab_to_srgb(OklabColor { l: 3 * 65536, a: 0, b: 0 }), [255, 255, 255]);
    assert_eq!(oklab_to_srgb(OklabColor { l: -65536, a: 0, b: 0 }), [0, 0, 0]);
    assert_eq!(oklab_to_srgb(OklabColor { l: i32::MAX, a: i32::MIN, b: i32::MAX }).len(), 3);
}
