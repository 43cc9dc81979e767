use seam_carving::compact::remove_seam;
use seam_carving::cost::accumulate_costs;
use seam_carving::energy::compute_energies;
use seam_carving::seam::extract_seam;
use seam_carving::SeamCarver;

fn scattered(count: usize, seed: u32) -> Vec<u8> {
    let mut out: Vec<u8> = Vec::new();
    let mut state: u32 = seed;
    for _ in 0..count {
        state = state.wrapping_mul(1103515245).wrapping_add(12345);
        out.push((state >> 16) as u8);
    }
    out
}

fn digest(data: &[u8]) -> u64 {
    let mut hash: u64 = 0xcbf29ce484222325;
    for byte in data {
        hash ^= *byte as u64;
        hash = hash.wrapping_mul(0x100000001b3);
    }
    hash
}

#[test]
fn stages_of_a_scattered_image() {
    let pixels = scattered(16 * 12 * 4, 77);
    let mut field = vec![0u64; 16 * 12];
    compute_energies(16, 12, &pixels, &mut field);
    assert_eq!(field[..4].to_vec(), vec![107739788, 105186239, 97680391, 114016104]);
    assert_eq!(field.iter().sum::<u64>(), 10374601034);
    let mut parents = vec![0i64; 16 * 12];
    accumulate_costs(16, 12, &mut field, &mut parents);
    assert_eq!(field.iter().sum::<u64>(), 46045761069);
    let mut seam = vec![0usize; 12];
    extract_seam(16, 12, &field, &parents, &mut seam);
    assert_eq!(seam, vec![10, 9, 9, 9, 10, 10, 10, 11, 10, 11, 11, 10]);
}

#[test]
fn carve_does_what_its_stages_do() {
    let pixels = scattered(9 * 7 * 4, 5);
    let mut field = vec![0u64; 9 * 7];
    let mut parents = vec![0i64; 9 * 7];
    let mut seam = vec![0usize; 7];
    let mut narrow = vec![0u8; 8 * 7 * 4];
    compute_energies(9, 7, &pixels, &mut field);
    accumulate_costs(9, 7, &mut field, &mut parents);
    extract_seam(9, 7, &field, &parents, &mut seam);
    remove_seam(9, 7, &pixels, &seam, &mut narrow);
    let mut carver = SeamCarver::new(9, 7, &pixels).unwrap();
    carver.carve(true);
    assert_eq!(carver.image_ptr().to_vec(), narrow);
}

#[test]
fn scattered_image_carved_both_ways() {
    let pixels = scattered(16 * 12 * 4, 77);
    let mut carver = SeamCarver::new(16, 12, &pixels).unwrap();
    for _ in 0..5 {
        carver.carve(true);
    }
    for _ in 0..3 {
        carver.carve(false);
    }
    assert_eq!(carver.width(), 11);
    assert_eq!(carver.height(), 9);
    assert_eq!(carver.image_ptr()[..8].to_vec(), vec![165, 196, 213, 89, 45, 101, 183, 217]);
    assert_eq!(digest(carver.image_ptr()), 17490726756823740268);
}

#[test]
fn smooth_image_carved_in_turns() {
    let mut pixels: Vec<u8> = Vec::new();
    for y in 0..15u32 {
        for x in 0..20u32 {
            pixels.push(((x * x + y * 3) % 256) as u8);
            pixels.push(((x * 7 + y * y) % 256) as u8);
            pixels.push(((x * y) % 256) as u8);
            pixels.push(255);
        }
    }
    let mut carver = SeamCarver::new(20, 15, &pixels).unwrap();
    for _ in 0..7 {
        carver.carve(true);
        carver.carve(false);
    }
    assert_eq!(carver.width(), 13);
    assert_eq!(carver.height(), 8);
    assert_eq!(digest(carver.image_ptr()), 7597344532432974757);
}

#[test]
fn reused_carver_gives_what_a_fresh_one_gives() {
    let first = scattered(12 * 10 * 4, 9);
    let second = scattered(8 * 14 * 4, 10);
    let mut reused = SeamCarver::new(12, 10, &first).unwrap();
    for _ in 0..4 {
        reused.carve(true);
        reused.carve(false);
    }
    assert!(reused.reset(8, 14, &second).is_ok());
    let mut fresh = SeamCarver::new(8, 14, &second).unwrap();
    for _ in 0..3 {
        reused.carve(false);
        fresh.carve(false);
        reused.carve(true);
        fresh.carve(true);
    }
    assert_eq!(reused.width(), fresh.width());
    assert_eq!(reused.height(), fresh.height());
    assert_eq!(reused.image_ptr().to_vec(), fresh.image_ptr().to_vec());
}
