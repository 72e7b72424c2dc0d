use rgb2gif_processor::tensor::{
    build_tensor, build_tensor_from_frames, convolve_3d, extract_frame, voxel_to_index, TensorShape, KERNEL_UNIT,
};
use rgb2gif_processor::ProcessorError;

#[test]
fn test_tensor_shape() {
    let shape = TensorShape::cube(128);
    assert_eq!(shape.width, 128);
    assert_eq!(shape.height, 128);
    assert_eq!(shape.frames, 128);
    assert_eq!(shape.total_elements(), 128 * 128 * 128);
    assert_eq!(shape.frame_size(), 128 * 128);
}

#[test]
fn test_voxel_indexing() {
    let shape = TensorShape::cube(128);
    assert_eq!(voxel_to_index(0, 0, 0, shape), 0);
    assert_eq!(voxel_to_index(1, 0, 0, shape), 4);
    assert_eq!(voxel_to_index(0, 1, 0, shape), 128 * 4);
    assert_eq!(voxel_to_index(0, 0, 1, shape), 128 * 128 * 4);
}

#[test]
fn test_frame_extraction() {
    let shape = TensorShape { width: 2, height: 2, frames: 2 };
    let tensor = vec![0u8; shape.total_elements() * 4];

    let frame = extract_frame(&tensor, shape, 0).unwrap();
    assert_eq!(frame.len(), 2 * 2 * 4);

    let frame = extract_frame(&tensor, shape, 1).unwrap();
    assert_eq!(frame.len(), 2 * 2 * 4);

    assert!(extract_frame(&tensor, shape, 2).is_err());
}

#[test]
fn extract_frame_returns_the_right_slice() {
    let shape = TensorShape::new(2, 1, 3);
    let tensor: Vec<u8> = (0u8..24).collect();
    assert_eq!(extract_frame(&tensor, shape, 1).unwrap(), (8u8..16).collect::<Vec<u8>>());
    assert_eq!(extract_frame(&tensor, shape, 3), Err(ProcessorError::InvalidInput));
    assert_eq!(extract_frame(&tensor[..20], shape, 2), Err(ProcessorError::TensorError));
}

#[test]
fn voxel_tensor_of_four_small_frames() {
    let shape = TensorShape::new(16, 16, 4);
    let frames: Vec<u8> = (0..16 * 16 * 4 * 4).map(|i| (i % 251) as u8).collect();
    let tensor = build_tensor(&frames, shape).unwrap();
    assert_eq!(tensor.len(), 16 * 16 * 4 * 4);
    assert_eq!(tensor, frames);
    assert_eq!(voxel_to_index(0, 0, 0, shape), 0);
    assert_eq!(voxel_to_index(1, 0, 0, shape), 4);
    assert_eq!(voxel_to_index(0, 1, 0, shape), 64);
    assert_eq!(voxel_to_index(0, 0, 1, shape), 1024);
}

#[test]
fn build_tensor_rejects_wrong_length() {
    let shape = TensorShape::new(2, 2, 2);
    assert_eq!(build_tensor(&[0u8; 31], shape), Err(ProcessorError::InvalidInput));
    assert_eq!(build_tensor(&[], TensorShape::new(0, 5, 5)), Ok(vec![]));
}

fn normalised_box_kernel() -> Vec<i32> {
    let side = 26 * 2427;
    let mut kernel = vec![2427i32; 27];
    kernel[13] = (KERNEL_UNIT as i32) - side;
    kernel
}

#[test]
fn convolution_keeps_uniform_color() {
    let shape = TensorShape::new(5, 4, 3);
    let color = [12u8, 200, 77, 255];
    let tensor: Vec<u8> = (0..5 * 4 * 3).flat_map(|_| color).collect();
    let out = convolve_3d(&tensor, shape, &normalised_box_kernel(), 3).unwrap();
    assert_eq!(out, tensor);
}

#[test]
fn convolution_identity_and_clamping() {
    let shape = TensorShape::new(3, 1, 1);
    let tensor = vec![10u8, 20, 30, 40, 50, 60, 70, 80, 90, 100, 110, 120];
    let mut kernel = vec![0i32; 27];
    kernel[13] = KERNEL_UNIT as i32;
    assert_eq!(convolve_3d(&tensor, shape, &kernel, 3).unwrap(), tensor);
    let mut shift = vec![0i32; 27];
    shift[12] = KERNEL_UNIT as i32;
    let out = convolve_3d(&tensor, shape, &shift, 3).unwrap();
    assert_eq!(out, vec![10u8, 20, 30, 40, 10, 20, 30, 40, 50, 60, 70, 80]);
    let mut negative = vec![0i32; 27];
    negative[13] = -(KERNEL_UNIT as i32);
    assert_eq!(convolve_3d(&tensor, shape, &negative, 3).unwrap(), vec![0u8; 12]);
    let mut double = vec![0i32; 27];
    double[13] = 2 * KERNEL_UNIT as i32;
    assert_eq!(convolve_3d(&tensor, shape, &double, 3).unwrap()[11], 240);
    assert_eq!(convolve_3d(&tensor, shape, &vec![KERNEL_UNIT as i32], 1).unwrap(), tensor);
    assert_eq!(convolve_3d(&tensor, shape, &vec![KERNEL_UNIT as i32, 5, 7], 1).unwrap(), tensor);
    let mut longer = kernel.clone();
    longer.push(99);
    assert_eq!(convolve_3d(&tensor, shape, &longer, 3).unwrap(), tensor);
}

#[test]
fn convolution_rejects_bad_kernels() {
    let shape = TensorShape::new(1, 1, 1);
    let tensor = vec![1u8, 2, 3, 4];
    assert_eq!(convolve_3d(&tensor, shape, &vec![0i32; 8], 2), Err(ProcessorError::InvalidInput));
    assert_eq!(convolve_3d(&tensor, shape, &vec![0i32; 26], 3), Err(ProcessorError::InvalidInput));
    assert_eq!(convolve_3d(&tensor[..3], shape, &vec![0i32; 27], 3), Err(ProcessorError::InvalidInput));
}

#[test]
fn cube_sized_frames_are_copied() {
    let frames = vec![vec![1u8; 128 * 128 * 4], vec![2u8; 128 * 128 * 4]];
    let tensor = build_tensor_from_frames(&frames, 128, 128).unwrap();
    assert_eq!(tensor.len(), 2 * 128 * 128 * 4);
    assert_eq!(tensor[0], 1);
    assert_eq!(tensor[128 * 128 * 4], 2);
}

#[test]
fn other_frames_are_resampled_to_the_cube() {
    let (w, h) = (2u32, 2u32);
    let frame = vec![10u8, 11, 12, 13, 20, 21, 22, 23, 30, 31, 32, 33, 40, 41, 42, 43];
    let tensor = build_tensor_from_frames(&vec![frame.clone(), vec![0u8; 3]], w, h).unwrap();
    assert_eq!(tensor.len(), 2 * 65536);
    assert_eq!(&tensor[0..4], &[10, 11, 12, 13]);
    assert_eq!(&tensor[63 * 4..64 * 4], &[10, 11, 12, 13]);
    assert_eq!(&tensor[64 * 4..65 * 4], &[20, 21, 22, 23]);
    assert_eq!(&tensor[(64 * 128) * 4..(64 * 128 + 1) * 4], &[30, 31, 32, 33]);
    assert_eq!(&tensor[(128 * 128 - 1) * 4..128 * 128 * 4], &[40, 41, 42, 43]);
    assert!(tensor[65536..].iter().all(|&b| b == 0));
    assert_eq!(build_tensor_from_frames(&vec![frame], 0, 2), Err(ProcessorError::InvalidInput));
}
