use rgb2gif_processor::gif_encoder::{encode_gif, encode_gif89a, palette_to_rgb, GifOptions, QuantizeResult};
use rgb2gif_processor::ProcessorError;

fn create_test_frame(width: u32, height: u32) -> QuantizeResult {
    let indices = vec![0u8; (width * height) as usize];
    let palette = vec![0xFF0000FF_u32, 0x00FF00FF_u32, 0x0000FFFF_u32];
    QuantizeResult { indices, palette, width, height }
}

/// Walks the blocks after the global table: (frame delays, loop count, ends with trailer).
fn walk(bytes: &[u8]) -> (Vec<u16>, Option<u16>, bool) {
    let flags = bytes[10];
    let table = 3 * (2usize << (flags & 7));
    let mut pos = 13 + table;
    let mut delays = Vec::new();
    let mut loops = None;
    loop {
        match bytes[pos] {
            0x21 => {
                let label = bytes[pos + 1];
                if label == 0xF9 {
                    delays.push(u16::from_le_bytes([bytes[pos + 4], bytes[pos + 5]]));
                }
                if label == 0xFF {
                    loops = Some(u16::from_le_bytes([bytes[pos + 16], bytes[pos + 17]]));
                }
                pos += 2;
                while bytes[pos] != 0 {
                    pos += bytes[pos] as usize + 1;
                }
                pos += 1;
            }
            0x2C => {
                pos += 10 + 1;
                while bytes[pos] != 0 {
                    pos += bytes[pos] as usize + 1;
                }
                pos += 1;
            }
            0x3B => return (delays, loops, pos == bytes.len() - 1),
            other => panic!("unexpected block {other:#x}"),
        }
    }
}

#[test]
fn test_encode_single_frame() {
    let frames = vec![create_test_frame(256, 256)];
    let options = GifOptions::default();

    let result = encode_gif(frames, &options);
    assert!(result.is_ok());

    let gif_data = result.unwrap();
    assert!(gif_data.len() > 0);
    assert_eq!(&gif_data[0..6], b"GIF89a");
}

#[test]
fn test_encode_multiple_frames() {
    let frames = vec![create_test_frame(256, 256), create_test_frame(256, 256), create_test_frame(256, 256)];
    let mut options = GifOptions::default();
    options.frame_count = 3;

    let result = encode_gif(frames, &options);
    assert!(result.is_ok());
}

#[test]
fn test_frame_delay_calculation() {
    let frames = vec![create_test_frame(256, 256)];
    let mut options = GifOptions::default();
    options.fps = 30;

    let result = encode_gif(frames, &options).unwrap();
    assert!(result.len() > 0);
}

#[test]
fn header_palette_and_records() {
    let frames = vec![create_test_frame(4, 3), create_test_frame(4, 3)];
    let options = GifOptions { width: 4, height: 3, frame_count: 2, fps: 30, loop_count: 5, optimize: false };
    let bytes = encode_gif(frames, &options).unwrap();
    assert_eq!(&bytes[0..6], b"GIF89a");
    assert_eq!(&bytes[6..10], &[4, 0, 3, 0]);
    assert_eq!(bytes[10], 0x80 | 0x10 | 1);
    assert_eq!(&bytes[13..25], &[0xFF, 0, 0, 0, 0xFF, 0, 0, 0, 0xFF, 0, 0, 0]);
    let (delays, loops, trailer) = walk(&bytes);
    assert_eq!(delays, vec![3, 3]);
    assert_eq!(loops, Some(5));
    assert!(trailer);
    assert_eq!(*bytes.last().unwrap(), 0x3B);
}

#[test]
fn delay_truncates_to_zero_above_one_hundred_fps() {
    let options = GifOptions { width: 2, height: 2, frame_count: 1, fps: 120, loop_count: 0, optimize: true };
    let bytes = encode_gif(vec![create_test_frame(2, 2)], &options).unwrap();
    let (delays, loops, _) = walk(&bytes);
    assert_eq!(delays, vec![0]);
    assert_eq!(loops, Some(0));
}

#[test]
fn encode_gif_errors() {
    let options = GifOptions { width: 2, height: 2, frame_count: 1, fps: 10, loop_count: 0, optimize: true };
    assert_eq!(encode_gif(vec![], &options), Err(ProcessorError::InvalidInput));
    let zero_fps = GifOptions { fps: 0, ..options };
    assert_eq!(encode_gif(vec![create_test_frame(2, 2)], &zero_fps), Err(ProcessorError::InvalidInput));
    assert_eq!(
        encode_gif(vec![create_test_frame(2, 2), create_test_frame(3, 2)], &options),
        Err(ProcessorError::EncodingError)
    );
    let mut big = create_test_frame(2, 2);
    big.palette = vec![0; 257];
    assert_eq!(encode_gif(vec![big], &options), Err(ProcessorError::EncodingError));
    let mut short = create_test_frame(2, 2);
    short.indices.pop();
    assert_eq!(encode_gif(vec![short], &options), Err(ProcessorError::EncodingError));
}

#[test]
fn palette_padding_to_power_of_two() {
    assert_eq!(palette_to_rgb(&vec![]), vec![0u8; 6]);
    assert_eq!(palette_to_rgb(&vec![0x11223344]), vec![0x11, 0x22, 0x33, 0, 0, 0]);
    let five = palette_to_rgb(&vec![0xFFFFFFFF; 5]);
    assert_eq!(five.len(), 24);
    assert_eq!(&five[15..], &[0u8; 9]);
    assert_eq!(palette_to_rgb(&vec![0; 256]).len(), 768);
}

#[test]
fn flat_buffer_encoder_writes_whole_frames() {
    let side = 3u32;
    let indices: Vec<u8> = (0..9 * 2 + 4).map(|i| (i % 3) as u8).collect();
    let palettes = vec![0x00FF_0000u32, 0x0000_FF00, 0xFF00_00FF];
    let bytes = encode_gif89a(&indices, &palettes, 5, side, 7).unwrap();
    assert_eq!(&bytes[0..6], b"GIF89a");
    assert_eq!(&bytes[6..10], &[3, 0, 3, 0]);
    assert_eq!(bytes[10], 0x80 | 0x70 | 7);
    assert_eq!(&bytes[13..22], &[0xFF, 0, 0, 0, 0xFF, 0, 0, 0, 0xFF]);
    assert_eq!(&bytes[22..25], &[0, 0, 0]);
    let (delays, loops, trailer) = walk(&bytes);
    assert_eq!(delays, vec![7, 7]);
    assert_eq!(loops, Some(0));
    assert!(trailer);
    assert_eq!(encode_gif89a(&indices, &palettes, 1, 70000, 7), Err(ProcessorError::InvalidInput));
}
