use rom_extractor::reader::{Addr, RomError};
use rom_extractor::sprites::{BitReader, Decoder, DibitPacker, PLANE7_SIZE};

fn decoder_for(rom: &Vec<u8>) -> Decoder<'_> {
    Decoder::new(rom, Addr::new(0, 0))
}

#[test]
fn all_zero_planes_decode_to_blank_sprite() {
    // 1x1 tile; primary 0; plane A: RLE run of 32 zero dibits (1111 0 00001);
    // encoding 0; plane B: the same run.
    let rom: Vec<u8> = vec![0x11, 0x3c, 0x13, 0xc1, 0x00];
    let mut d = decoder_for(&rom);
    let img = d.load_sprite().unwrap();
    assert_eq!(img.width, 56);
    assert_eq!(img.height, 56);
    assert_eq!(img.data.len(), 784);
    assert!(img.data.iter().all(|b| *b == 0));
}

#[test]
fn hand_computed_sprite() {
    // 1x1 tile; primary 0; plane A raw dibit 3 then RLE of 31 zeros;
    // encoding 0; plane B all zero. Delta decoding turns 0xC0 into 0x80,
    // which the canvas and the row layout place at byte 678.
    let rom: Vec<u8> = vec![0x11, 0x73, 0xc0, 0x3c, 0x10];
    let mut d = decoder_for(&rom);
    let img = d.load_sprite().unwrap();
    for (k, b) in img.data.iter().enumerate() {
        if k == 678 {
            assert_eq!(*b, 0x80);
        } else {
            assert_eq!(*b, 0, "byte {}", k);
        }
    }
}

#[test]
fn oversized_sprite_is_a_format_error() {
    let rom: Vec<u8> = vec![0x81, 0, 0, 0];
    let mut d = decoder_for(&rom);
    assert!(matches!(d.load_sprite(), Err(RomError::Format)));
}

#[test]
fn truncated_stream_is_an_address_error() {
    let rom: Vec<u8> = vec![0x11, 0x3c];
    let mut d = decoder_for(&rom);
    assert!(matches!(d.load_sprite(), Err(RomError::Address)));
}

#[test]
fn bits_are_read_most_significant_first() {
    let rom: Vec<u8> = vec![0b1010_0001, 0b1000_0000];
    let mut br = BitReader::new(&rom, Addr::new(0, 0));
    let bits: Vec<u8> = (0..9).map(|_| br.next().unwrap()).collect();
    assert_eq!(bits, vec![1, 0, 1, 0, 0, 0, 0, 1, 1]);
}

#[test]
fn dibit_packer_writes_and_skips() {
    let mut bp = DibitPacker::new(2);
    bp.push_dibit(3);
    assert_eq!(bp.push_zero_dibits(2), Ok(()));
    bp.push_dibit(1);
    assert_eq!(bp.storage[0], 0b1100_0001);
    assert!(!bp.is_full());
    assert_eq!(bp.push_zero_dibits(8), Err(RomError::Format));
    assert_eq!(bp.push_zero_dibits(4), Ok(()));
    assert!(bp.is_full());
}

fn geometry(rom: &Vec<u8>, w: usize, h: usize) -> Decoder<'_> {
    let mut d = decoder_for(rom);
    d.sprite_w = 8 * w;
    d.sprite_h = 8 * h;
    d.linesize_1bpp = w;
    d.size_1bpp = w * h * 8;
    d
}

#[test]
fn delta_decode_is_deterministic() {
    let rom: Vec<u8> = vec![];
    let d = geometry(&rom, 2, 3);
    let mut input = vec![0u8; PLANE7_SIZE];
    for (i, b) in input.iter_mut().enumerate().take(48) {
        *b = (i as u8).wrapping_mul(37) ^ 0x5a;
    }
    let mut a = input.clone();
    let mut b = input.clone();
    d.delta_decode(&mut a);
    let other = geometry(&rom, 2, 3);
    other.delta_decode(&mut b);
    assert_eq!(a, b);
    assert_ne!(a, input);
}

#[test]
fn delta_decode_chains_down_a_column() {
    let rom: Vec<u8> = vec![];
    let d = geometry(&rom, 1, 2);
    let mut plane = vec![0u8; PLANE7_SIZE];
    plane[0] = 0x12;
    plane[8] = 0x30;
    d.delta_decode(&mut plane);
    // 0x1 -> 1; 0x2 after 1 -> 12; then 0x3 after 12 (even) -> 2; 0x0 after 2 -> 0.
    assert_eq!(plane[0], 0x1c);
    assert_eq!(plane[8], 0x20);
}

#[test]
fn unknown_encoding_is_rejected() {
    let rom: Vec<u8> = vec![];
    let d = geometry(&rom, 1, 1);
    let mut p0 = vec![0u8; PLANE7_SIZE];
    let mut p1 = vec![0u8; PLANE7_SIZE];
    assert_eq!(d.decode(&mut p0, &mut p1, 3), Err(RomError::Format));
}

#[test]
fn encoding_one_xors_decoded_plane_into_raw_plane() {
    let rom: Vec<u8> = vec![];
    let d = geometry(&rom, 1, 1);
    let mut p0 = vec![0u8; PLANE7_SIZE];
    let mut p1 = vec![0u8; PLANE7_SIZE];
    p0[0] = 0xc0;
    p1[0] = 0x0f;
    assert_eq!(d.decode(&mut p0, &mut p1, 1), Ok(()));
    assert_eq!(p0[0], 0x80);
    assert_eq!(p1[0], 0x8f);
}

#[test]
fn xor_limited_to_length() {
    let mut dst = vec![0xffu8, 0xf0, 0x0f];
    let src = vec![0x0fu8, 0xff, 0xff];
    Decoder::xor(&mut dst, &src, 2);
    assert_eq!(dst, vec![0xf0, 0x0f, 0x0f]);
}
