use std::collections::HashSet;

use rgb2gif_processor::pipeline::{
    build_cube_tensor_impl, encode_quantized_gif_impl, encode_rgba_to_gif, process_all_frames,
    process_frames_to_gif_impl, quantize_frames_impl, GifOpts, ProcessorImpl, ProcessorOptions, QuantizeOpts,
};
use rgb2gif_processor::tensor::TensorShape;
use rgb2gif_processor::{calculate_buffer_size, validate_buffer, ProcessorError};

fn create_test_frames(count: usize, width: u32, height: u32) -> Vec<u8> {
    let mut all_frames = Vec::with_capacity((width * height * 4 * count as u32) as usize);
    for i in 0..count {
        for y in 0..height {
            for x in 0..width {
                all_frames.push(((x * 255 / width) as u8).wrapping_add(i as u8));
                all_frames.push(((y * 255 / height) as u8).wrapping_add(i as u8));
                all_frames.push(128);
                all_frames.push(255);
            }
        }
    }
    all_frames
}

fn quantize(palette_size: u16) -> QuantizeOpts {
    QuantizeOpts { quality_min: 70, quality_max: 100, speed: 5, palette_size, dithering_level: 1000, shared_palette: true }
}

fn gif(width: u16, height: u16, frame_count: u16, fps: u16) -> GifOpts {
    GifOpts { width, height, frame_count, fps, loop_count: 0, optimize: true, include_tensor: false }
}

/// Number of image records, or None when the block structure is broken.
fn count_frames(bytes: &[u8]) -> Option<usize> {
    let table = 3 * (2usize << (bytes[10] & 7));
    let mut pos = 13 + table;
    let mut frames = 0;
    loop {
        match *bytes.get(pos)? {
            0x21 => {
                pos += 2;
                while *bytes.get(pos)? != 0 {
                    pos += bytes[pos] as usize + 1;
                }
                pos += 1;
            }
            0x2C => {
                frames += 1;
                pos += 11;
                while *bytes.get(pos)? != 0 {
                    pos += bytes[pos] as usize + 1;
                }
                pos += 1;
            }
            0x3B => return if pos == bytes.len() - 1 { Some(frames) } else { None },
            _ => return None,
        }
    }
}

fn global_table(bytes: &[u8]) -> Vec<[u8; 3]> {
    let n = 2usize << (bytes[10] & 7);
    (0..n).map(|i| [bytes[13 + 3 * i], bytes[14 + 3 * i], bytes[15 + 3 * i]]).collect()
}

#[test]
fn test_gif_validation() {
    let frames = create_test_frames(8, 128, 128);

    let quantize_opts = QuantizeOpts {
        quality_min: 70,
        quality_max: 100,
        speed: 5,
        palette_size: 128,
        dithering_level: 1000,
        shared_palette: true,
    };

    let gif_opts = GifOpts {
        width: 128,
        height: 128,
        frame_count: 8,
        fps: 10,
        loop_count: 5,
        optimize: true,
        include_tensor: false,
    };

    let result = process_all_frames(frames, 128, 128, 8, quantize_opts, gif_opts);

    assert!(result.is_ok());
    let output = result.unwrap();

    assert!(output.gif_data.len() > 6);
    assert_eq!(&output.gif_data[0..6], b"GIF89a", "Should be GIF89a format");

    let width_bytes = &output.gif_data[6..8];
    let height_bytes = &output.gif_data[8..10];
    let width = u16::from_le_bytes([width_bytes[0], width_bytes[1]]);
    let height = u16::from_le_bytes([height_bytes[0], height_bytes[1]]);
    assert_eq!(width, 128);
    assert_eq!(height, 128);
}

fn create_integration_frames(count: usize, width: u32, height: u32) -> Vec<u8> {
    let mut frames = Vec::new();
    for i in 0..count {
        for y in 0..height {
            for x in 0..width {
                frames.push(((x * 255 / width) as u8).wrapping_add(i as u8));
                frames.push(((y * 255 / height) as u8).wrapping_add(i as u8));
                frames.push(((x + y) / 2 * 255 / width) as u8);
                frames.push(255);
            }
        }
    }
    frames
}

#[test]
fn test_basic_processing() {
    let frames = create_integration_frames(32, 256, 256);

    let quantize_opts = QuantizeOpts {
        quality_min: 70,
        quality_max: 100,
        speed: 5,
        palette_size: 256,
        dithering_level: 1000,
        shared_palette: true,
    };

    let gif_opts = GifOpts {
        width: 256,
        height: 256,
        frame_count: 32,
        fps: 30,
        loop_count: 0,
        optimize: true,
        include_tensor: false,
    };

    let result = process_all_frames(frames, 256, 256, 32, quantize_opts, gif_opts);
    assert!(result.is_ok());

    let output = result.unwrap();
    assert!(!output.gif_data.is_empty());
    assert!(output.actual_frame_count == 32);
    assert!(output.palette_size_used <= 256);
}

#[test]
fn test_different_sizes() {
    let test_cases = vec![(128, 128, 16), (256, 256, 32), (512, 512, 8)];

    for (width, height, frame_count) in test_cases {
        let frames = create_integration_frames(frame_count, width, height);

        let quantize_opts = QuantizeOpts {
            quality_min: 50,
            quality_max: 90,
            speed: 8,
            palette_size: 256,
            dithering_level: 500,
            shared_palette: true,
        };

        let gif_opts = GifOpts {
            width: width as u16,
            height: height as u16,
            frame_count: frame_count as u16,
            fps: 25,
            loop_count: 0,
            optimize: false,
            include_tensor: false,
        };

        let result = process_all_frames(frames, width, height, frame_count as u32, quantize_opts, gif_opts);

        assert!(result.is_ok(), "Failed for {width}x{height} with {frame_count} frames");
    }
}

#[test]
fn integration_test_error_handling() {
    let frames = Vec::new();

    let quantize_opts = QuantizeOpts {
        quality_min: 70,
        quality_max: 100,
        speed: 5,
        palette_size: 256,
        dithering_level: 1000,
        shared_palette: true,
    };

    let gif_opts = GifOpts {
        width: 256,
        height: 256,
        frame_count: 0,
        fps: 30,
        loop_count: 0,
        optimize: true,
        include_tensor: false,
    };

    let result = process_all_frames(frames, 256, 256, 0, quantize_opts, gif_opts);
    assert!(result.is_err(), "Should fail with empty input");
}

#[test]
fn gradient_batch_end_to_end() {
    let frames = create_test_frames(8, 64, 64);
    let out = process_all_frames(frames, 64, 64, 8, quantize(64), gif(64, 64, 8, 25)).unwrap();
    let bytes = &out.gif_data;
    assert_eq!(&bytes[0..6], b"GIF89a");
    assert_eq!(u16::from_le_bytes([bytes[6], bytes[7]]), 64);
    assert_eq!(u16::from_le_bytes([bytes[8], bytes[9]]), 64);
    assert_eq!(count_frames(bytes), Some(8));
    assert_eq!(*bytes.last().unwrap(), 0x3B);
    assert_eq!(out.actual_frame_count, 8);
    assert_eq!(out.palette_size_used, 64);
    assert_eq!(out.final_file_size as usize, bytes.len());
    assert!(out.tensor_data.is_none());
}

#[test]
fn empty_batch_is_invalid_input() {
    let r = process_all_frames(Vec::new(), 64, 64, 0, quantize(64), gif(64, 64, 0, 25));
    assert_eq!(r.err(), Some(ProcessorError::InvalidInput));
}

#[test]
fn malformed_requests_are_rejected() {
    let frames = create_test_frames(2, 4, 4);
    let bad = |w: u32, h: u32, n: u32, q: QuantizeOpts, g: GifOpts, data: Vec<u8>| process_all_frames(data, w, h, n, q, g).err();
    assert_eq!(bad(4, 4, 3, quantize(8), gif(4, 4, 3, 10), frames.clone()), Some(ProcessorError::InvalidInput));
    assert_eq!(bad(4, 4, 2, quantize(0), gif(4, 4, 2, 10), frames.clone()), Some(ProcessorError::InvalidInput));
    assert_eq!(bad(4, 4, 2, quantize(300), gif(4, 4, 2, 10), frames.clone()), Some(ProcessorError::InvalidInput));
    assert_eq!(bad(4, 4, 2, quantize(8), gif(4, 4, 2, 0), frames.clone()), Some(ProcessorError::InvalidInput));
    let strong = QuantizeOpts { dithering_level: 1001, ..quantize(8) };
    assert_eq!(bad(4, 4, 2, strong, gif(4, 4, 2, 10), frames.clone()), Some(ProcessorError::InvalidInput));
    assert_eq!(bad(0, 4, 2, quantize(8), gif(0, 4, 2, 10), vec![]), Some(ProcessorError::InvalidInput));
    assert_eq!(bad(4, 4, 2, quantize(8), gif(8, 4, 2, 10), frames.clone()), Some(ProcessorError::EncodingError));
}

#[test]
fn uniform_batches_encode_with_one_effective_color() {
    for v in [0u8, 255] {
        let frames: Vec<u8> = (0..3 * 8 * 8).flat_map(|_| [v, v, v, 255]).collect();
        let out = process_all_frames(frames, 8, 8, 3, quantize(16), gif(8, 8, 3, 20)).unwrap();
        assert_eq!(count_frames(&out.gif_data), Some(3));
        assert_eq!(out.palette_size_used, 1);
        assert_eq!(out.gif_data[10] & 7, 0);
        let table = global_table(&out.gif_data);
        assert_eq!(table.len(), 2);
        assert_eq!(table[0], [v, v, v]);
        let used: HashSet<[u8; 3]> = table.iter().copied().collect();
        assert!(used.len() <= 2);
    }
}

#[test]
fn tensor_is_returned_when_requested() {
    let frames = create_test_frames(4, 16, 16);
    let opts = GifOpts { include_tensor: true, ..gif(16, 16, 4, 30) };
    let out = process_all_frames(frames.clone(), 16, 16, 4, quantize(32), opts).unwrap();
    let tensor = out.tensor_data.unwrap();
    assert_eq!(tensor.len(), 16 * 16 * 4 * 4);
    assert_eq!(tensor, frames);
}

#[test]
fn small_batch_palette_is_capped_by_samples() {
    let frames = create_test_frames(1, 2, 2);
    let out = process_all_frames(frames, 2, 2, 1, quantize(256), gif(2, 2, 1, 30)).unwrap();
    assert_eq!(out.palette_size_used, 4);
}

#[test]
fn processor_settings_and_batch() {
    let mut p = ProcessorImpl::new();
    assert_eq!(p.set_quality(90, 80), Err(ProcessorError::InvalidInput));
    assert_eq!(p.set_quality(10, 101), Err(ProcessorError::InvalidInput));
    assert_eq!(p.set_quality(10, 90), Ok(()));
    assert_eq!(p.set_speed(0), Err(ProcessorError::InvalidInput));
    assert_eq!(p.set_speed(11), Err(ProcessorError::InvalidInput));
    assert_eq!(p.set_speed(3), Ok(()));
    let bytes = p.process_complete(create_test_frames(2, 8, 8), 8, 8, 2, 50).unwrap();
    assert_eq!(count_frames(&bytes), Some(2));
    assert_eq!(p.process_complete(vec![1, 2, 3], 8, 8, 2, 50), Err(ProcessorError::InvalidInput));
}

#[test]
fn frames_to_gif_and_per_frame_vectors() {
    let options = ProcessorOptions { quantize: quantize(16), gif: gif(8, 8, 3, 25), parallel: true };
    let bytes = process_frames_to_gif_impl(create_test_frames(3, 8, 8), 8, 8, 3, options).unwrap();
    assert_eq!(count_frames(&bytes), Some(3));
    let all = create_test_frames(2, 8, 8);
    let split = vec![all[..256].to_vec(), all[256..].to_vec()];
    let bytes = encode_rgba_to_gif(split, 8, 8, 10).unwrap();
    assert_eq!(count_frames(&bytes), Some(2));
    assert_eq!(encode_rgba_to_gif(vec![vec![0; 255]], 8, 8, 10), Err(ProcessorError::InvalidInput));
    assert_eq!(encode_rgba_to_gif(vec![], 8, 8, 10), Err(ProcessorError::InvalidInput));
}

#[test]
fn buffer_helpers() {
    assert_eq!(calculate_buffer_size(64, 32, 3), 64 * 32 * 4 * 3);
    assert_eq!(calculate_buffer_size(0, 32, 3), 0);
    assert!(validate_buffer(vec![0; 12], 12));
    assert!(!validate_buffer(vec![0; 12], 13));
}

#[test]
fn first_frame_quantization_and_single_frame_encoding() {
    let frames = create_test_frames(2, 4, 4);
    let q = quantize_frames_impl(frames.clone(), 4, 4, 2, quantize(4)).unwrap();
    assert_eq!((q.width, q.height), (4, 4));
    assert_eq!(q.indices.len(), 16);
    assert_eq!(q.palette.len(), 4);
    assert!(q.palette.iter().all(|c| c & 0xFF == 0xFF));
    assert_eq!(quantize_frames_impl(frames[..60].to_vec(), 4, 4, 2, quantize(4)).err(), Some(ProcessorError::InvalidInput));
    assert_eq!(quantize_frames_impl(frames.clone(), 4, 4, 2, quantize(0)).err(), Some(ProcessorError::InvalidInput));

    let bytes = encode_quantized_gif_impl(q.clone(), gif(4, 4, 1, 20)).unwrap();
    assert_eq!(count_frames(&bytes), Some(1));
    assert_eq!(global_table(&bytes).len(), 4);
    assert_eq!(encode_quantized_gif_impl(q.clone(), gif(4, 4, 1, 0)), Err(ProcessorError::InvalidInput));
    assert_eq!(encode_quantized_gif_impl(q.clone(), gif(5, 4, 1, 20)), Err(ProcessorError::EncodingError));

    let p = ProcessorImpl::new();
    let q2 = p.quantize_batch(frames, 4, 4, 2).unwrap();
    assert_eq!(q2.palette.len(), 16);
    let bytes = p.encode_gif(q2, 25).unwrap();
    assert_eq!(count_frames(&bytes), Some(1));
}

#[test]
fn cube_tensor_entry_point() {
    let frames = create_test_frames(2, 2, 2);
    assert_eq!(build_cube_tensor_impl(frames.clone(), TensorShape::new(2, 2, 2)), Ok(frames.clone()));
    assert_eq!(build_cube_tensor_impl(frames, TensorShape::cube(3)), Err(ProcessorError::InvalidInput));
}
