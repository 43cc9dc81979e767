use seam_carving::transpose::transpose_pixels;
use seam_carving::SeamCarver;

fn sample_3x2() -> Vec<u8> {
    vec![
        10, 20, 30, 255, 40, 50, 60, 255, 70, 80, 90, 255, //
        15, 25, 35, 255, 200, 210, 220, 255, 5, 5, 5, 255,
    ]
}

#[test]
fn transposing_moves_each_pixel_as_a_whole() {
    let pixels = sample_3x2();
    let mut dest = vec![0u8; 24];
    transpose_pixels(3, 2, &pixels, &mut dest);
    assert_eq!(
        dest,
        vec![
            10, 20, 30, 255, 15, 25, 35, 255, //
            40, 50, 60, 255, 200, 210, 220, 255, //
            70, 80, 90, 255, 5, 5, 5, 255,
        ]
    );
}

#[test]
fn transposing_twice_gives_back_the_pixels() {
    let width: usize = 7;
    let height: usize = 5;
    let mut pixels: Vec<u8> = Vec::new();
    for i in 0..(width * height * 4) {
        pixels.push((i * 37 % 251) as u8);
    }
    let mut once = vec![0u8; pixels.len()];
    let mut twice = vec![0u8; pixels.len()];
    transpose_pixels(width as u32, height as u32, &pixels, &mut once);
    transpose_pixels(height as u32, width as u32, &once, &mut twice);
    assert_eq!(twice, pixels);
    assert_ne!(once, pixels);
}

#[test]
fn transposing_a_row_or_a_column_keeps_the_bytes() {
    let pixels: Vec<u8> = vec![1, 2, 3, 4, 5, 6, 7, 8, 9, 10, 11, 12];
    let mut dest = vec![0u8; 12];
    transpose_pixels(3, 1, &pixels, &mut dest);
    assert_eq!(dest, pixels);
    let mut back = vec![0u8; 12];
    transpose_pixels(1, 3, &pixels, &mut back);
    assert_eq!(back, pixels);
}

#[test]
fn transposing_an_image_without_pixels() {
    let pixels: Vec<u8> = Vec::new();
    let mut dest: Vec<u8> = Vec::new();
    transpose_pixels(0, 0, &pixels, &mut dest);
    transpose_pixels(0, 4, &pixels, &mut dest);
    transpose_pixels(4, 0, &pixels, &mut dest);
    assert!(dest.is_empty());
}

#[test]
fn carver_transposes_its_image() {
    let mut carver = SeamCarver::new(3, 2, &sample_3x2()).unwrap();
    carver.transpose();
    assert_eq!(carver.width(), 2);
    assert_eq!(carver.height(), 3);
    assert_eq!(
        carver.image_ptr().to_vec(),
        vec![
            10, 20, 30, 255, 15, 25, 35, 255, //
            40, 50, 60, 255, 200, 210, 220, 255, //
            70, 80, 90, 255, 5, 5, 5, 255,
        ]
    );
}

#[test]
fn carver_transposed_twice_is_unchanged() {
    let mut carver = SeamCarver::new(3, 2, &sample_3x2()).unwrap();
    carver.transpose();
    carver.transpose();
    assert_eq!(carver.width(), 3);
    assert_eq!(carver.height(), 2);
    assert_eq!(carver.image_ptr().to_vec(), sample_3x2());
}
