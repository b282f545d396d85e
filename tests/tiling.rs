use rom_extractor::tiling::{reflow, reflow_colmajor, tiles_to_2x2_rowmajor};

#[test]
fn row_major_layout() {
    // Four 1x2 patches A, B, C, D onto a 2x4 surface: AB over CD.
    let src: Vec<u8> = vec![1, 2, 3, 4, 5, 6, 7, 8];
    let mut dst = vec![0u8; 8];
    reflow(&mut dst, 2, 4, &src, 1, 2);
    assert_eq!(dst, vec![1, 3, 2, 4, 5, 7, 6, 8]);
}

#[test]
fn column_major_layout() {
    // Rows A, B, C, D onto a 2x2 surface: A over B in the first column.
    let src: Vec<u8> = vec![1, 2, 3, 4];
    let mut dst = vec![0u8; 4];
    reflow_colmajor(&mut dst, 2, 2, &src, 1);
    assert_eq!(dst, vec![1, 3, 2, 4]);
}

#[test]
fn four_tiles_into_a_sprite() {
    let tiles: Vec<u8> = (0..64u8).collect();
    let sprite = tiles_to_2x2_rowmajor(&tiles);
    assert_eq!(&sprite[0..4], &[0, 1, 16, 17]);
    assert_eq!(&sprite[28..32], &[14, 15, 30, 31]);
    assert_eq!(&sprite[32..36], &[32, 33, 48, 49]);
}
