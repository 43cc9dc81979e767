use seam_carving::compact::remove_seam;

fn sample_3x2() -> Vec<u8> {
    vec![
        10, 20, 30, 255, 40, 50, 60, 255, 70, 80, 90, 255, //
        15, 25, 35, 255, 200, 210, 220, 255, 5, 5, 5, 255,
    ]
}

#[test]
fn removing_a_seam_closes_every_row() {
    let pixels = sample_3x2();
    let mut dest = vec![0u8; 2 * 2 * 4];
    remove_seam(3, 2, &pixels, &[2, 1], &mut dest);
    assert_eq!(
        dest,
        vec![
            10, 20, 30, 255, 40, 50, 60, 255, //
            15, 25, 35, 255, 5, 5, 5, 255,
        ]
    );
}

#[test]
fn removing_the_first_column() {
    let pixels = sample_3x2();
    let mut dest = vec![0u8; 16];
    remove_seam(3, 2, &pixels, &[0, 0], &mut dest);
    assert_eq!(
        dest,
        vec![
            40, 50, 60, 255, 70, 80, 90, 255, //
            200, 210, 220, 255, 5, 5, 5, 255,
        ]
    );
}

#[test]
fn removing_the_last_column() {
    let pixels = sample_3x2();
    let mut dest = vec![0u8; 16];
    remove_seam(3, 2, &pixels, &[2, 2], &mut dest);
    assert_eq!(
        dest,
        vec![
            10, 20, 30, 255, 40, 50, 60, 255, //
            15, 25, 35, 255, 200, 210, 220, 255,
        ]
    );
}

#[test]
fn rows_keep_all_pixels_but_the_one_removed() {
    let width: usize = 6;
    let height: usize = 4;
    let mut pixels: Vec<u8> = Vec::new();
    for i in 0..(width * height * 4) {
        pixels.push(i as u8);
    }
    let seam: Vec<usize> = vec![3, 4, 5, 4];
    let mut dest = vec![0u8; (width - 1) * height * 4];
    remove_seam(width as u32, height as u32, &pixels, &seam, &mut dest);
    assert_eq!(dest.len(), (width - 1) * height * 4);
    for y in 0..height {
        let old_row = &pixels[y * width * 4..(y + 1) * width * 4];
        let new_row = &dest[y * (width - 1) * 4..(y + 1) * (width - 1) * 4];
        assert_eq!(new_row.len(), (width - 1) * 4);
        let before = &new_row[..seam[y] * 4];
        let after = &new_row[seam[y] * 4..];
        let mut joined: Vec<u8> = Vec::new();
        joined.extend_from_slice(before);
        joined.extend_from_slice(&old_row[seam[y] * 4..(seam[y] + 1) * 4]);
        joined.extend_from_slice(after);
        assert_eq!(joined, old_row.to_vec());
    }
}

#[test]
fn removing_the_only_column_leaves_no_pixels() {
    let pixels: Vec<u8> = vec![1, 2, 3, 4, 5, 6, 7, 8];
    let mut dest: Vec<u8> = Vec::new();
    remove_seam(1, 2, &pixels, &[0, 0], &mut dest);
    assert!(dest.is_empty());
}

#[test]
fn removing_a_seam_from_an_image_without_rows() {
    let pixels: Vec<u8> = Vec::new();
    let mut dest: Vec<u8> = Vec::new();
    remove_seam(4, 0, &pixels, &[], &mut dest);
    assert!(dest.is_empty());
}

#[test]
fn removing_a_seam_overwrites_the_whole_destination() {
    let pixels = vec![9u8; 4 * 3 * 4];
    let mut dest = vec![1u8; 3 * 3 * 4];
    remove_seam(4, 3, &pixels, &[1, 2, 3], &mut dest);
    assert_eq!(dest, vec![9u8; 36]);
}
