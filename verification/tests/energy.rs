use seam_carving::energy::compute_energies;
use seam_carving::energy::energy;
use seam_carving::energy::get_brightness;
use seam_carving::energy::get_pixel_brightness;
use seam_carving::energy::isqrt;
use seam_carving::energy::ENERGY_UNIT;
use seam_carving::energy::MAX_BRIGHTNESS;

fn sample_3x2() -> Vec<u8> {
    vec![
        10, 20, 30, 255, 40, 50, 60, 255, 70, 80, 90, 255, //
        15, 25, 35, 255, 200, 210, 220, 255, 5, 5, 5, 255,
    ]
}

#[test]
fn isqrt_rounds_down() {
    assert_eq!(isqrt(0), 0);
    assert_eq!(isqrt(1), 1);
    assert_eq!(isqrt(2), 1);
    assert_eq!(isqrt(3), 1);
    assert_eq!(isqrt(4), 2);
    assert_eq!(isqrt(15), 3);
    assert_eq!(isqrt(16), 4);
    assert_eq!(isqrt(17), 4);
    assert_eq!(isqrt(24), 4);
    assert_eq!(isqrt(25), 5);
}

#[test]
fn isqrt_of_the_largest_numbers() {
    assert_eq!(isqrt(u64::MAX), 4294967295);
    assert_eq!(isqrt(4294967295 * 4294967295), 4294967295);
    assert_eq!(isqrt(4294967295 * 4294967295 - 1), 4294967294);
    assert_eq!(isqrt(1 << 32), 65536);
    assert_eq!(isqrt((1 << 32) - 1), 65535);
}

#[test]
fn isqrt_brackets_its_argument() {
    let mut n: u64 = 0;
    while n < 5000 {
        let r = isqrt(n);
        assert!(r * r <= n);
        assert!((r + 1) * (r + 1) > n);
        n += 1;
    }
}

#[test]
fn brightness_sums_red_green_and_blue() {
    let pixels = sample_3x2();
    assert_eq!(get_brightness(&pixels, 0), 60);
    assert_eq!(get_brightness(&pixels, 4), 150);
    assert_eq!(get_brightness(&pixels, 16), 630);
}

#[test]
fn brightness_of_white_is_the_maximum() {
    let pixels = [255u8, 255, 255, 0];
    assert_eq!(get_brightness(&pixels, 0), MAX_BRIGHTNESS);
    assert_eq!(MAX_BRIGHTNESS, 765);
}

#[test]
fn brightness_ignores_alpha() {
    assert_eq!(get_brightness(&[1, 2, 3, 0], 0), 6);
    assert_eq!(get_brightness(&[1, 2, 3, 255], 0), 6);
}

#[test]
fn pixel_brightness_inside_the_image() {
    let pixels = sample_3x2();
    assert_eq!(get_pixel_brightness(3, 2, &pixels, 0, 0), 60);
    assert_eq!(get_pixel_brightness(3, 2, &pixels, 2, 0), 240);
    assert_eq!(get_pixel_brightness(3, 2, &pixels, 0, 1), 75);
    assert_eq!(get_pixel_brightness(3, 2, &pixels, 1, 1), 630);
    assert_eq!(get_pixel_brightness(3, 2, &pixels, 2, 1), 15);
}

#[test]
fn pixel_brightness_outside_the_image_is_zero() {
    let pixels = sample_3x2();
    assert_eq!(get_pixel_brightness(3, 2, &pixels, -1, 0), 0);
    assert_eq!(get_pixel_brightness(3, 2, &pixels, 0, -1), 0);
    assert_eq!(get_pixel_brightness(3, 2, &pixels, 3, 0), 0);
    assert_eq!(get_pixel_brightness(3, 2, &pixels, 0, 2), 0);
    assert_eq!(get_pixel_brightness(3, 2, &pixels, -1, -1), 0);
    assert_eq!(get_pixel_brightness(3, 2, &pixels, 3, 2), 0);
    assert_eq!(get_pixel_brightness(3, 2, &pixels, i64::MAX, i64::MIN), 0);
}

#[test]
fn pixel_brightness_of_an_empty_image_is_zero() {
    let pixels: Vec<u8> = Vec::new();
    assert_eq!(get_pixel_brightness(0, 0, &pixels, 0, 0), 0);
    assert_eq!(get_pixel_brightness(0, 7, &pixels, 0, 3), 0);
}

#[test]
fn lone_pixel_has_no_energy() {
    assert_eq!(energy(1, 1, &[0, 0, 0, 0], 0, 0), 0);
    assert_eq!(energy(1, 1, &[255, 255, 255, 255], 0, 0), 0);
    assert_eq!(energy(1, 1, &[12, 200, 77, 3], 0, 0), 0);
}

#[test]
fn energy_of_a_uniform_white_image() {
    let pixels = vec![255u8; 10 * 10 * 4];
    // corner: both gradients are 3 * 765
    assert_eq!(energy(10, 10, &pixels, 0, 0), 212704960);
    assert_eq!(energy(10, 10, &pixels, 9, 9), 212704960);
    // edge: one gradient is 4 * 765, the other is zero
    assert_eq!(energy(10, 10, &pixels, 1, 0), 3060 * ENERGY_UNIT);
    assert_eq!(energy(10, 10, &pixels, 0, 1), 200540160);
    assert_eq!(energy(10, 10, &pixels, 9, 4), 200540160);
    // inside: all neighbours are alike
    assert_eq!(energy(10, 10, &pixels, 1, 1), 0);
    assert_eq!(energy(10, 10, &pixels, 5, 5), 0);
}

#[test]
fn energy_of_a_horizontal_step() {
    // 3 x 3, left column black, right column white, middle column gray
    let mut pixels: Vec<u8> = Vec::new();
    for _ in 0..3 {
        pixels.extend_from_slice(&[0, 0, 0, 255, 100, 100, 100, 255, 255, 255, 255, 255]);
    }
    // at the centre: gx = 0 - 4 * 765, gy = 0
    assert_eq!(energy(3, 3, &pixels, 1, 1), 3060 * 65536);
}

#[test]
fn energy_outside_the_image_sees_only_the_border() {
    let pixels = vec![255u8; 2 * 2 * 4];
    // right of the top right corner: left column holds (0, 765, 765)
    // gx = 0 + 2 * 765 + 765, gy = 0 - 765
    assert_eq!(energy(2, 2, &pixels, 2, 0), 158540916);
}

#[test]
fn energy_does_not_depend_on_alpha() {
    let opaque = sample_3x2();
    let mut clear = sample_3x2();
    let mut i = 3;
    while i < clear.len() {
        clear[i] = 0;
        i += 4;
    }
    for y in 0..2 {
        for x in 0..3 {
            assert_eq!(energy(3, 2, &opaque, x, y), energy(3, 2, &clear, x, y));
        }
    }
}

#[test]
fn energy_field_of_a_small_image() {
    let pixels = sample_3x2();
    let mut field = vec![7u64; 6];
    compute_energies(3, 2, &pixels, &mut field);
    assert_eq!(field, vec![79547314, 90631809, 74736904, 94084683, 39517718, 101210162]);
}

#[test]
fn energy_field_agrees_with_single_energies() {
    let mut pixels: Vec<u8> = Vec::new();
    let mut state: u32 = 12345;
    for _ in 0..(7 * 5 * 4) {
        state = state.wrapping_mul(1103515245).wrapping_add(12345);
        pixels.push((state >> 16) as u8);
    }
    let mut field = vec![0u64; 7 * 5];
    compute_energies(7, 5, &pixels, &mut field);
    for y in 0..5u32 {
        for x in 0..7u32 {
            assert_eq!(field[(y * 7 + x) as usize], energy(7, 5, &pixels, x, y));
        }
    }
}

#[test]
fn energy_field_of_an_image_without_pixels() {
    let pixels: Vec<u8> = Vec::new();
    let mut field: Vec<u64> = Vec::new();
    compute_energies(0, 0, &pixels, &mut field);
    compute_energies(0, 9, &pixels, &mut field);
    compute_energies(9, 0, &pixels, &mut field);
    assert!(field.is_empty());
}

#[test]
fn energy_field_reads_only_the_image() {
    // the buffer is longer than the image: what follows the image is not read
    let mut pixels = sample_3x2();
    let mut field = vec![0u64; 6];
    compute_energies(3, 2, &pixels, &mut field);
    pixels.extend_from_slice(&[255, 0, 255, 0, 9, 9, 9, 9]);
    let mut again = vec![0u64; 6];
    compute_energies(3, 2, &pixels, &mut again);
    assert_eq!(field, again);
}
