use std::collections::HashSet;

use rgb2gif_processor::blue_noise::{
    apply_blue_noise, blue_noise_value, detect_edges, find_nearest_color, temporal_blue_noise, AdaptiveBlueNoise,
};
use rgb2gif_processor::color::OklabColor;
use rgb2gif_processor::dither::{map_to_palette, nearest_index, TemporalDither};
use rgb2gif_processor::palette::build_oklab_palette;
use rgb2gif_processor::pipeline::{dither_frames, quantize_in_oklab};

fn c(l: i32, a: i32, b: i32) -> OklabColor {
    OklabColor { l, a, b }
}

fn gradient_samples(n: i32) -> Vec<OklabColor> {
    (0..n).map(|i| c(i * 100, (i % 7) * 50 - 150, 300 - (i % 5) * 90)).collect()
}

#[test]
fn palette_size_is_bounded_by_target_and_samples() {
    let samples = gradient_samples(100);
    for target in [1usize, 2, 7, 64, 100, 150] {
        let palette = build_oklab_palette(&samples, target);
        assert_eq!(palette.len(), target.min(100));
    }
    assert!(build_oklab_palette(&[], 16).is_empty());
    assert!(build_oklab_palette(&samples, 0).is_empty());
}

#[test]
fn palette_entries_stay_within_sample_range() {
    let samples = gradient_samples(57);
    let palette = build_oklab_palette(&samples, 9);
    for p in &palette {
        assert!(p.l >= 0 && p.l <= 5600);
        assert!(p.a >= -150 && p.a <= 150);
        assert!(p.b >= -60 && p.b <= 300);
    }
}

#[test]
fn palette_of_distinct_colors_is_exact() {
    let samples = vec![c(0, 0, 0), c(1000, 0, 0), c(0, 5000, 0), c(0, 0, -7000)];
    let palette = build_oklab_palette(&samples, 4);
    let got: HashSet<(i32, i32, i32)> = palette.iter().map(|p| (p.l, p.a, p.b)).collect();
    let want: HashSet<(i32, i32, i32)> = samples.iter().map(|p| (p.l, p.a, p.b)).collect();
    assert_eq!(got, want);
    let one = build_oklab_palette(&samples, 1);
    assert_eq!(one, vec![c(250, 1250, -1750)]);
}

#[test]
fn uniform_samples_give_one_effective_color() {
    let samples = vec![c(123, -45, 67); 50];
    let palette = build_oklab_palette(&samples, 16);
    assert_eq!(palette, vec![c(123, -45, 67)]);
    let mut two = vec![c(1, 2, 3); 10];
    two.extend(vec![c(9, 9, 9); 7]);
    let palette = build_oklab_palette(&two, 4);
    assert_eq!(palette.len(), 2);
    assert!(palette.contains(&c(1, 2, 3)) && palette.contains(&c(9, 9, 9)));
}

#[test]
fn nearest_prefers_first_of_equals() {
    let palette = vec![c(10, 0, 0), c(-10, 0, 0), c(0, 0, 0), c(0, 0, 0)];
    assert_eq!(nearest_index(&palette, 0, 0, 0), 2);
    assert_eq!(nearest_index(&palette, 0, 0, 0), 2);
    assert_eq!(nearest_index(&palette[..2], 0, 0, 0), 0);
    assert_eq!(nearest_index(&palette, -9, 1, 1), 1);
}

fn quantized_frame() -> (Vec<OklabColor>, Vec<OklabColor>, Vec<u8>) {
    let palette = vec![c(0, 0, 0), c(65536, 0, 0), c(30000, 9000, -4000), c(50000, -12000, 7000)];
    let indices: Vec<u8> = (0..48).map(|i| ((i * 7 + i / 5) % 4) as u8).collect();
    let pixels = indices.iter().map(|&i| palette[i as usize]).collect();
    (palette, pixels, indices)
}

#[test]
fn zero_strength_temporal_dither_reproduces_indices() {
    let (palette, pixels, indices) = quantized_frame();
    let mut ditherer = TemporalDither::with_strength(0);
    assert_eq!(ditherer.apply(&pixels, &palette, 8, 6), indices);
    assert_eq!(ditherer.apply(&pixels, &palette, 8, 6), indices);
}

#[test]
fn temporal_dither_is_deterministic() {
    let palette = vec![c(0, 0, 0), c(65536, 0, 0), c(32768, 3000, -3000)];
    let frames: Vec<Vec<OklabColor>> = (0..4)
        .map(|f| (0..64).map(|i| c((i * 1000 + f * 333) % 65536, (i % 9) * 100, -(i % 4) * 200)).collect())
        .collect();
    let run = || {
        let mut d = TemporalDither::new();
        frames.iter().map(|fr| d.apply(fr, &palette, 8, 8)).collect::<Vec<_>>()
    };
    let first = run();
    let second = run();
    assert_eq!(first, second);
    assert!(first.iter().flatten().all(|&i| i < 3));
}

#[test]
fn temporal_dither_mixes_between_levels() {
    let palette = vec![c(0, 0, 0), c(65536, 0, 0)];
    let gray = vec![c(32768, 0, 0); 64];
    let mut d = TemporalDither::new();
    let out = d.apply(&gray, &palette, 8, 8);
    let ones = out.iter().filter(|&&i| i == 1).count();
    assert!(ones > 8 && ones < 56, "{ones} of 64 light pixels");
}

#[test]
fn find_nearest_color_in_rgb() {
    let palette = [[0u8, 0, 0, 255], [255, 255, 255, 255], [250, 10, 10, 0]];
    assert_eq!(find_nearest_color(&[240, 0, 0, 255], &palette), 2);
    assert_eq!(find_nearest_color(&[100, 100, 100, 0], &palette), 0);
    assert_eq!(find_nearest_color(&[200, 200, 200, 9], &palette), 1);
    assert_eq!(find_nearest_color(&[1, 2, 3, 4], &[]), 0);
}

#[test]
fn blue_noise_pattern_values() {
    assert_eq!(blue_noise_value(0, 0), 0);
    assert_eq!(blue_noise_value(0, 1), ((71u32 ^ 17) % 256) as u8);
    assert_eq!(blue_noise_value(2, 3), (((2 * 67 + 3 * 71) ^ ((2 * 13) ^ (3 * 17))) % 256) as u8);
}

fn rgba_frame_of(palette: &[[u8; 4]], indices: &[u8]) -> Vec<u8> {
    indices.iter().flat_map(|&i| palette[i as usize]).collect()
}

#[test]
fn zero_strength_blue_noise_reproduces_indices() {
    let palette = [[0u8, 0, 0, 255], [255, 255, 255, 255], [200, 30, 40, 255], [10, 220, 90, 255]];
    let indices: Vec<u8> = (0..30).map(|i| ((i * 5 + 1) % 4) as u8).collect();
    let pixels = rgba_frame_of(&palette, &indices);
    assert_eq!(apply_blue_noise(&pixels, 6, 5, &palette, 0), indices);
    assert_eq!(temporal_blue_noise(&pixels, 6, 5, &palette, 0, 13), indices);
    let adaptive = AdaptiveBlueNoise::new(&pixels, 6, 5);
    assert_eq!(adaptive.apply(&pixels, &palette, 0), indices);
}

#[test]
fn blue_noise_strength_changes_choices() {
    let palette = [[0u8, 0, 0, 255], [255, 255, 255, 255]];
    let pixels: Vec<u8> = (0..64 * 4).flat_map(|_| [128u8, 128, 128, 255]).collect();
    let flat = apply_blue_noise(&pixels, 16, 16, &palette, 0);
    assert!(flat.iter().all(|&i| i == 1));
    let noisy = apply_blue_noise(&pixels, 16, 16, &palette, 1000);
    let dark = noisy.iter().filter(|&&i| i == 0).count();
    assert!(dark > 0 && dark < 256);
    let shifted = temporal_blue_noise(&pixels, 16, 16, &palette, 1000, 1);
    assert_ne!(noisy, shifted);
}

#[test]
fn sobel_edges() {
    let (w, h) = (5usize, 4usize);
    let mut pixels = Vec::new();
    for _y in 0..h {
        for x in 0..w {
            let v = if x < 2 { 0u8 } else { 255 };
            pixels.extend_from_slice(&[v, v, v, 255]);
        }
    }
    let edges = detect_edges(&pixels, w, h);
    assert_eq!(edges.len(), 20);
    assert_eq!(edges[0], 0);
    assert_eq!(edges[w + 1], 1000);
    assert_eq!(edges[w + 2], 1000);
    assert_eq!(edges[w + 3], 0);
    let flat = vec![7u8; 4 * 9];
    assert!(detect_edges(&flat, 3, 3).iter().all(|&e| e == 0));
}

#[test]
fn batch_dithering_matches_frame_by_frame() {
    let palette = vec![c(0, 0, 0), c(65536, 0, 0), c(40000, 5000, -5000)];
    let samples: Vec<OklabColor> = (0..3 * 20).map(|i| c((i * 2113) % 65536, (i % 5) * 700, -(i % 3) * 900)).collect();
    let batch = dither_frames(&samples, &palette, 5, 4, 3, 1000);
    let mut d = TemporalDither::new();
    let by_frame: Vec<Vec<u8>> = samples.chunks(20).map(|f| d.apply(f, &palette, 5, 4)).collect();
    assert_eq!(batch, by_frame);
    assert_eq!(batch, dither_frames(&samples, &palette, 5, 4, 3, 1000));
}

#[test]
fn nearest_mapping_without_dither() {
    let palette = vec![c(0, 0, 0), c(1000, 0, 0)];
    let pixels = vec![c(10, 0, 0), c(990, 5, 5), c(500, 0, 0), c(501, 0, 0)];
    assert_eq!(map_to_palette(&pixels, &palette), vec![0, 1, 0, 1]);
    assert_eq!(map_to_palette(&pixels, &[]), vec![0, 0, 0, 0]);
}

#[test]
fn single_frame_quantization() {
    let rgba: Vec<u8> = [[255u8, 0, 0, 255], [0, 0, 255, 255], [255, 0, 0, 255], [0, 255, 0, 255]].concat();
    let (indices, colors) = quantize_in_oklab(&rgba, 2, 2, 3).unwrap();
    assert_eq!(colors.len(), 3);
    assert!(indices.iter().all(|&i| i < 3));
    let (indices, colors) = quantize_in_oklab(&rgba, 2, 2, 4).unwrap();
    assert_eq!(colors.len(), 3);
    let mapped: Vec<[u8; 4]> = indices.iter().map(|&i| colors[i as usize]).collect();
    assert_eq!(mapped, vec![[255, 0, 0, 255], [0, 0, 255, 255], [255, 0, 0, 255], [0, 255, 0, 255]]);
    assert!(quantize_in_oklab(&rgba, 2, 2, 0).is_err());
    assert!(quantize_in_oklab(&rgba, 2, 2, 300).is_err());
    assert!(quantize_in_oklab(&[], 0, 0, 8).is_err());
}

#[test]
fn dithering_uses_the_leading_pixels_of_longer_buffers() {
    let (palette, pixels, indices) = quantized_frame();
    let mut longer = pixels.clone();
    longer.extend(vec![c(1, 1, 1); 5]);
    let mut ditherer = TemporalDither::with_strength(0);
    assert_eq!(ditherer.apply(&longer, &palette, 8, 6), indices);
    let rgba_palette = [[0u8, 0, 0, 255], [255, 255, 255, 255]];
    let mut rgba: Vec<u8> = vec![255; 4 * 4];
    rgba.extend_from_slice(&[9, 9, 9, 9, 9]);
    assert_eq!(apply_blue_noise(&rgba, 2, 2, &rgba_palette, 0), vec![1, 1, 1, 1]);
    assert_eq!(temporal_blue_noise(&rgba, 2, 2, &rgba_palette, 0, 3), vec![1, 1, 1, 1]);
    let adaptive = AdaptiveBlueNoise::new(&rgba[..16], 2, 2);
    assert_eq!(adaptive.apply(&rgba, &rgba_palette, 0), vec![1, 1, 1, 1]);
}
