use ort_superserve::benchmarks::client::{choose_images, percentile};
use ort_superserve::benchmarks::servers::{dispatch_now, logits_per_item, single_batch_shape, split_rows};
use ort_superserve::benchmarks::shared::{
    center_crop_rgb, decimal_text, planar_channels, random_image_file_name, scaled_size, ImageInput, RgbImage,
};

#[test]
fn percentile_picks_floor_position() {
    let sorted: Vec<u64> = (1..=10).collect();
    assert_eq!(percentile(&sorted, 50), 6);
    assert_eq!(percentile(&sorted, 90), 10);
    assert_eq!(percentile(&sorted, 99), 10);
    assert_eq!(percentile(&sorted, 0), 1);
    assert_eq!(percentile(&sorted, 250), 10);
    assert_eq!(percentile(&[], 50), 0);
    let sorted: Vec<u64> = (0..200).collect();
    assert_eq!(percentile(&sorted, 99), 198);
}

#[test]
fn image_input_keeps_bytes() {
    let input = ImageInput::from_png_bytes(vec![137, 80, 78, 71]);
    assert_eq!(input.image_bytes, vec![137, 80, 78, 71]);
}

#[test]
fn logits_per_item_prefers_second_extent() {
    assert_eq!(logits_per_item(&[32, 1000]), 1000);
    assert_eq!(logits_per_item(&[10]), 10);
}

#[test]
fn split_rows_takes_consecutive_runs() {
    let data: Vec<i32> = (0..7).collect();
    let rows = split_rows(&data, 3, 2);
    assert_eq!(rows, vec![vec![0, 1], vec![2, 3], vec![4, 5]]);
}

fn small_png(width: u32, height: u32, rgb: [u8; 3]) -> Vec<u8> {
    let img = image::RgbImage::from_pixel(width, height, image::Rgb(rgb));
    let mut bytes = std::io::Cursor::new(Vec::new());
    img.write_to(&mut bytes, image::ImageFormat::Png).unwrap();
    bytes.into_inner()
}

fn gradient_png(width: u32, height: u32) -> Vec<u8> {
    let img = image::RgbImage::from_fn(width, height, |x, y| image::Rgb([x as u8, y as u8, 7]));
    let mut bytes = std::io::Cursor::new(Vec::new());
    img.write_to(&mut bytes, image::ImageFormat::Png).unwrap();
    bytes.into_inner()
}

#[test]
fn decode_crops_the_center_of_a_256_square() {
    let input = ImageInput::from_png_bytes(gradient_png(256, 256));
    let img = input.decode().unwrap();
    assert_eq!((img.width, img.height), (224, 224));
    for (r, c) in [(0usize, 0usize), (0, 223), (223, 0), (100, 57), (223, 223)] {
        let at = (r * 224 + c) * 3;
        assert_eq!(&img.pixels[at..at + 3], &[(16 + c) as u8, (16 + r) as u8, 7]);
    }
}

#[test]
fn decode_keeps_the_aspect_ratio_of_wide_images() {
    let input = ImageInput::from_png_bytes(small_png(512, 256, [9, 120, 250]));
    let img = input.decode().unwrap();
    assert_eq!((img.width, img.height), (224, 224));
    assert!(img.pixels.chunks(3).all(|p| p == [9, 120, 250]));
}

#[test]
fn scaled_size_sets_the_shorter_side_to_256() {
    assert_eq!(scaled_size(10, 6), (426, 256));
    assert_eq!(scaled_size(100, 300), (256, 768));
    assert_eq!(scaled_size(256, 256), (256, 256));
    assert_eq!(scaled_size(0, 5), (256, 256));
}

#[test]
fn center_crop_takes_the_middle_square() {
    // 4 columns, 3 rows; pixel (x, y) holds x + 10 * y in each channel.
    let mut pixels = Vec::new();
    for y in 0..3u8 {
        for x in 0..4u8 {
            pixels.extend_from_slice(&[x + 10 * y; 3]);
        }
    }
    let out = center_crop_rgb(&pixels, 4, 3, 2);
    assert_eq!(out, vec![1, 1, 1, 2, 2, 2, 11, 11, 11, 12, 12, 12]);
}

#[test]
fn planar_channels_groups_each_channel() {
    let image = RgbImage { width: 2, height: 1, pixels: vec![1, 2, 3, 4, 5, 6] };
    assert_eq!(planar_channels(&image), vec![1, 4, 2, 5, 3, 6]);
}

#[test]
fn decimal_text_writes_digits() {
    assert_eq!(decimal_text(0), "0");
    assert_eq!(decimal_text(7), "7");
    assert_eq!(decimal_text(10), "10");
    assert_eq!(decimal_text(9999), "9999");
    assert_eq!(decimal_text(u64::MAX), u64::MAX.to_string());
}

#[test]
fn random_image_file_names_index_the_data_set() {
    for _ in 0..200 {
        let name = random_image_file_name();
        let index: u64 = name.strip_suffix(".png").unwrap().parse().unwrap();
        assert!(index < 10000);
        assert_eq!(name, format!("{}.png", index));
    }
}

#[test]
fn choose_images_takes_distinct_png_files() {
    let names: Vec<String> =
        ["a.png", "b.txt", ".png", "c.png", "d.PNG", "e.png", "x.png.bak", "..png"].iter().map(|s| s.to_string()).collect();
    let chosen = choose_images(&names, 2);
    assert_eq!(chosen.len(), 2);
    assert_ne!(chosen[0], chosen[1]);
    for &k in &chosen {
        assert!([0usize, 3, 5, 7].contains(&k));
    }
    let mut all = choose_images(&names, 100);
    all.sort();
    assert_eq!(all, vec![0, 3, 5, 7]);
    assert!(choose_images(&names, 0).is_empty());
}

#[test]
fn full_batches_are_dispatched_at_once() {
    assert!(dispatch_now(32, 32));
    assert!(!dispatch_now(31, 32));
}

#[test]
fn decode_resizes_to_model_side() {
    let input = ImageInput::from_png_bytes(small_png(10, 6, [0, 0, 0]));
    let img = input.decode().unwrap();
    assert_eq!(img.width, 224);
    assert_eq!(img.height, 224);
    assert_eq!(img.pixels.len(), 224 * 224 * 3);
    assert!(img.pixels.iter().all(|&b| b == 0));
}

#[test]
fn decode_rejects_non_images() {
    let input = ImageInput::from_png_bytes(vec![1, 2, 3, 4]);
    assert!(input.decode().is_err());
}

#[test]
fn single_images_gain_a_batch_axis() {
    assert_eq!(single_batch_shape(&[3, 224, 224]), vec![1, 3, 224, 224]);
    assert_eq!(single_batch_shape(&[1, 3, 224, 224]), vec![1, 3, 224, 224]);
    assert_eq!(single_batch_shape(&[10]), vec![10]);
}
