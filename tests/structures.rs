use rom_extractor::reader::{Addr, Reader, RomError};
use rom_extractor::structures::{
    read_records, MapConnection, MapEntity, MapHeader, RomStructure, RomStructureTable,
    WildPokemon,
};

fn sample_rom() -> Vec<u8> {
    (0..200u32).map(|i| (i * 7 % 251) as u8).collect()
}

#[test]
fn entry_at_is_order_independent() {
    let rom = sample_rom();
    let table = RomStructureTable::<WildPokemon>::new_at(&rom, Addr::new(0, 4));
    let direct = table.entry_at(5).unwrap();
    let table2 = RomStructureTable::<WildPokemon>::new_at(&rom, Addr::new(0, 4));
    let _ = table2.entry_at(2).unwrap();
    let after = table2.entry_at(5).unwrap();
    assert_eq!(direct, after);
    assert_eq!(direct.level, rom[4 + 10]);
    assert_eq!(direct.id, rom[4 + 11]);
}

#[test]
fn word_table_entries() {
    let rom: Vec<u8> = vec![0x01, 0x02, 0x03, 0x04, 0x05, 0x06];
    let table = RomStructureTable::<u16>::new_at(&rom, Addr::new(0, 0));
    assert_eq!(table.entry_at(0), Ok(0x0201));
    assert_eq!(table.entry_at(2), Ok(0x0605));
    assert_eq!(table.entry_at(3), Err(RomError::Address));
}

#[test]
fn sequential_walk_stops_at_0xff() {
    let rom: Vec<u8> = vec![0u8; 0x200];
    let mut table = RomStructureTable::<u8>::new_at(&rom, Addr::new(0, 0));
    let mut n = 0;
    while let Some(e) = table.next() {
        assert_eq!(e, Ok(0));
        n += 1;
    }
    assert_eq!(n, 0xff);
}

#[test]
fn header_decoding_and_connection_count() {
    let rom: Vec<u8> = vec![3, 9, 10, 0x34, 0x12, 0x78, 0x56, 0xbc, 0x9a, 0b1010];
    let mut r = Reader::new_at(&rom, Addr::new(0, 0));
    let h = MapHeader::read(&mut r).unwrap();
    assert_eq!(h.tileset_id, 3);
    assert_eq!(h.h, 9);
    assert_eq!(h.w, 10);
    assert_eq!(h.map_ptr, 0x1234);
    assert_eq!(h.text_ptr, 0x5678);
    assert_eq!(h.script_ptr, 0x9abc);
    assert_eq!(h.n_cons(), 2);
    assert_eq!(r.addr, Addr::new(0, 10));
    assert_eq!(MapHeader::size(), 10);
    assert_eq!(MapConnection::size(), 11);
}

#[test]
fn entity_width_depends_on_kind() {
    // Plain person, then a trainer (bit 6: extra id and party number), then an item (bit 7).
    let rom: Vec<u8> = vec![
        1, 5, 6, 0xff, 0xd0, 0x02, //
        2, 7, 8, 0xfe, 0x00, 0x43, 0xca, 0x04, //
        3, 9, 9, 0xff, 0xff, 0x85, 0x11,
    ];
    let mut r = Reader::new_at(&rom, Addr::new(0, 0));
    let a = MapEntity::read(&mut r).unwrap();
    assert_eq!((a.text_id, a.extra_id, a.extra_num), (0x02, 0, 0));
    assert_eq!(r.addr.addr, 6);
    let b = MapEntity::read(&mut r).unwrap();
    assert_eq!((b.text_id, b.extra_id, b.extra_num), (0x43, 0xca, 0x04));
    assert_eq!(r.addr.addr, 14);
    let c = MapEntity::read(&mut r).unwrap();
    assert_eq!((c.text_id, c.extra_id, c.extra_num), (0x85, 0x11, 0));
    assert_eq!(r.addr.addr, 21);
    assert_eq!(MapEntity::read(&mut r), Err(RomError::Address));
}

#[test]
fn read_records_in_sequence() {
    let rom: Vec<u8> = vec![10, 20, 11, 21, 12, 22];
    let mut r = Reader::new_at(&rom, Addr::new(0, 0));
    let v = read_records::<WildPokemon>(&mut r, 3).unwrap();
    assert_eq!(v.len(), 3);
    assert_eq!((v[2].level, v[2].id), (12, 22));
    let mut r2 = Reader::new_at(&rom, Addr::new(0, 2));
    assert!(read_records::<WildPokemon>(&mut r2, 3).is_err());
}
