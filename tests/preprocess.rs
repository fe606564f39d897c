use std::io::Cursor;

use inference_bench::layout::to_channel_first;
use inference_bench::preprocess::{preprocess_image, PreprocessError, INPUT_LEN, INPUT_SIDE};

fn png_of(width: u32, height: u32, pixel: impl Fn(u32, u32) -> [u8; 3]) -> Vec<u8> {
    let img = image::RgbImage::from_fn(width, height, |x, y| image::Rgb(pixel(x, y)));
    let mut bytes: Vec<u8> = Vec::new();
    img.write_to(&mut Cursor::new(&mut bytes), image::ImageFormat::Png).unwrap();
    bytes
}

const MEAN: [f32; 3] = [0.485, 0.456, 0.406];
const STD: [f32; 3] = [0.229, 0.224, 0.225];

#[test]
fn output_length_does_not_depend_on_source_size() {
    for (w, h) in [(1u32, 1u32), (7, 3), (224, 224), (300, 200), (5, 640)] {
        let bytes = png_of(w, h, |x, y| [(x % 256) as u8, (y % 256) as u8, 9]);
        let planes = preprocess_image(&bytes).unwrap();
        assert_eq!(planes.len(), INPUT_LEN);
        assert_eq!(planes.len(), 3 * (INPUT_SIDE as usize) * (INPUT_SIDE as usize));
    }
}

#[test]
fn single_pixel_gives_uniform_planes() {
    let rgb = [10u8, 200, 45];
    let bytes = png_of(1, 1, |_, _| rgb);
    let planes = preprocess_image(&bytes).unwrap();
    let plane = (INPUT_SIDE * INPUT_SIDE) as usize;
    for c in 0..3 {
        let expected = (rgb[c] as f32 / 255.0 - MEAN[c]) / STD[c];
        for i in 0..plane {
            assert_eq!(planes[c * plane + i], rgb[c]);
            let value = (planes[c * plane + i] as f32 / 255.0 - MEAN[c]) / STD[c];
            assert!((value - expected).abs() < 1e-6);
        }
    }
}

#[test]
fn full_size_image_keeps_column_and_row_order() {
    let bytes = png_of(224, 224, |x, y| [x as u8, y as u8, ((x + 2 * y) % 256) as u8]);
    let planes = preprocess_image(&bytes).unwrap();
    let side = INPUT_SIDE as usize;
    for y in 0..side {
        for x in 0..side {
            assert_eq!(planes[(0 * side + y) * side + x], x as u8);
            assert_eq!(planes[(1 * side + y) * side + x], y as u8);
            assert_eq!(planes[(2 * side + y) * side + x], ((x + 2 * y) % 256) as u8);
        }
    }
}

#[test]
fn planes_hold_pixel_values_not_file_bytes() {
    let bytes = png_of(2, 1, |x, _| if x == 0 { [0, 0, 0] } else { [0, 0, 0] });
    let planes = preprocess_image(&bytes).unwrap();
    assert_ne!(planes.len(), bytes.len());
    assert!(planes.iter().all(|&v| v == 0));
}

#[test]
fn undecodable_bytes_are_rejected() {
    let r = preprocess_image(&[1, 2, 3, 4, 5, 6, 7, 8]);
    assert!(matches!(r, Err(PreprocessError::Undecodable(_))));
    let r = preprocess_image(&[]);
    assert!(matches!(r, Err(PreprocessError::Undecodable(_))));
}

#[test]
fn truncated_png_is_rejected() {
    let bytes = png_of(16, 16, |x, y| [x as u8, y as u8, 0]);
    let r = preprocess_image(&bytes[..bytes.len() / 2]);
    assert!(matches!(r, Err(PreprocessError::Undecodable(_))));
}

#[test]
fn channel_first_of_two_by_two() {
    // pixels (x, y): (0,0)=1,2,3 (1,0)=4,5,6 (0,1)=7,8,9 (1,1)=10,11,12
    let pixels: Vec<u8> = (1..=12).collect();
    let planes = to_channel_first(&pixels, 2, 2);
    assert_eq!(planes, vec![1, 4, 7, 10, 2, 5, 8, 11, 3, 6, 9, 12]);
}

#[test]
fn channel_first_of_wide_bitmap() {
    // 3 wide, 1 high
    let pixels: Vec<u8> = vec![1, 2, 3, 4, 5, 6, 7, 8, 9];
    let planes = to_channel_first(&pixels, 3, 1);
    assert_eq!(planes, vec![1, 4, 7, 2, 5, 8, 3, 6, 9]);
}

#[test]
fn channel_first_of_empty_bitmap() {
    let planes = to_channel_first(&Vec::new(), 0, 5);
    assert!(planes.is_empty());
}
