use rom_extractor::reader::{Addr, BlobSlicer, Reader, RomError};

#[test]
fn position_of_banked_address() {
    let a = Addr::new(0x03, 0x423d);
    assert_eq!(a.pos(), 3 * 0x4000 + 0x423d - 0x4000);
}

#[test]
fn position_of_low_address_ignores_bank() {
    assert_eq!(Addr::new(0x00, 0x01ae).pos(), 0x1ae);
    assert_eq!(Addr::new(0x07, 0x01ae).pos(), 0x1ae);
    assert_eq!(Addr::new(0xff, 0x3fff).pos(), 0x3fff);
}

#[test]
fn advance_past_banked_window_fails() {
    let mut a = Addr::new(0x05, 0x7ffe);
    assert_eq!(a.add(3), Err(RomError::Address));
    assert_eq!(a, Addr::new(0x05, 0x7ffe));
    assert_eq!(a.add(1), Ok(Addr::new(0x05, 0x7fff)));
}

#[test]
fn advance_in_low_window() {
    let mut a = Addr::new(0x00, 0x3ffe);
    assert_eq!(a.add(1), Ok(Addr::new(0x00, 0x3fff)));
    let mut b = Addr::new(0x00, 0x3ffe);
    assert_eq!(b.add(2), Err(RomError::Address));
    assert_eq!(b.addr, 0x3ffe);
}

#[test]
fn reads_are_little_endian_and_move_the_cursor() {
    let rom: Vec<u8> = vec![0x12, 0x34, 0x56, 0x78, 0x9a];
    let mut r = Reader::new_at(&rom, Addr::new(0, 0));
    assert_eq!(r.read_u8(), Ok(0x12));
    assert_eq!(r.read_u16(), Ok(0x5634));
    assert_eq!(r.addr, Addr::new(0, 3));
    assert_eq!(r.read_u8s(2), Ok(vec![0x78, 0x9a]));
    assert_eq!(r.read_u8(), Err(RomError::Address));
    assert_eq!(r.addr, Addr::new(0, 5));
}

#[test]
fn seek_and_skip() {
    let rom: Vec<u8> = (0..=255u8).collect();
    let mut r = Reader::new_at(&rom, Addr::new(0, 0));
    r.seek(Addr::new(0, 0x10));
    assert_eq!(r.skip(0x20), Ok(()));
    assert_eq!(r.read_u8(), Ok(0x30));
    let mut edge = Reader::new_at(&rom, Addr::new(0, 0x3ff0));
    assert_eq!(edge.skip(0x10), Err(RomError::Address));
    assert_eq!(edge.addr, Addr::new(0, 0x3ff0));
}

#[test]
fn last_byte_of_window_cannot_be_read() {
    let rom: Vec<u8> = vec![0u8; 0x8000];
    let mut r = Reader::new_at(&rom, Addr::new(0, 0x3fff));
    assert_eq!(r.read_u8(), Err(RomError::Address));
    let mut s = Reader::new_at(&rom, Addr::new(0, 0x3ffe));
    assert_eq!(s.read_u8(), Ok(0));
}

#[test]
fn blob_slices_are_strided() {
    let rom: Vec<u8> = (0..64u8).collect();
    let slicer = BlobSlicer::<8>::new_at(&rom, Addr::new(0, 8));
    assert_eq!(slicer.slice_at(0), Ok((8..16u8).collect::<Vec<u8>>()));
    assert_eq!(slicer.slice_at(6), Ok((56..64u8).collect::<Vec<u8>>()));
    assert_eq!(slicer.slice_at(7), Err(RomError::Address));
}
