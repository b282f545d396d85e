use rom_extractor::reader::{Addr, Reader, RomError};
use rom_extractor::text::{
    decimal, decimal_padded, decode_text_fixed, get_item_name, get_pkmn_chr, get_text,
    get_text_command, hex2, load_packed_text_id,
};

#[test]
fn character_table() {
    assert_eq!(get_pkmn_chr(0x80), Some("A"));
    assert_eq!(get_pkmn_chr(0xa0), Some("a"));
    assert_eq!(get_pkmn_chr(0xf6), Some("0"));
    assert_eq!(get_pkmn_chr(0x54), Some("POK\u{c9}"));
    assert_eq!(get_pkmn_chr(0x00), None);
}

#[test]
fn text_up_to_terminator() {
    let rom: Vec<u8> = vec![0x87, 0xa8, 0xe7, 0x50, 0x80];
    let mut r = Reader::new_at(&rom, Addr::new(0, 0));
    assert_eq!(get_text(&mut r).unwrap(), "Hi!");
    assert_eq!(r.addr.addr, 4);
}

#[test]
fn unknown_character_is_a_format_error() {
    let rom: Vec<u8> = vec![0x87, 0x01, 0x50];
    let mut r = Reader::new_at(&rom, Addr::new(0, 0));
    assert_eq!(get_text(&mut r), Err(RomError::Format));
}

#[test]
fn fixed_length_names() {
    let raw: Vec<u8> = vec![0x81, 0x80, 0x92, 0x50, 0x50];
    assert_eq!(decode_text_fixed(&raw, 5).unwrap(), "BAS");
    assert_eq!(decode_text_fixed(&raw, 2).unwrap(), "BA");
}

#[test]
fn text_commands() {
    let rom: Vec<u8> = vec![0x08, 0x17, 0x06, 0x00, 0x00, 0xff, 0x00, 0x80, 0x57];
    let mut r = Reader::new_at(&rom, Addr::new(0, 0));
    assert_eq!(get_text_command(&mut r).unwrap(), "<Script>");
    assert_eq!(get_text_command(&mut r).unwrap(), "A");
    let mut nurse = Reader::new_at(&rom, Addr::new(0, 5));
    assert_eq!(get_text_command(&mut nurse).unwrap(), "<Script: Nurse>");
}

#[test]
fn packed_lists_are_walked() {
    let rom: Vec<u8> = vec![0x80, 0x50, 0x81, 0x81, 0x50, 0x82, 0x50];
    assert_eq!(load_packed_text_id(&rom, Addr::new(0, 0), 2).unwrap(), "BB");
    assert_eq!(load_packed_text_id(&rom, Addr::new(0, 0), 3).unwrap(), "C");
    assert_eq!(load_packed_text_id(&rom, Addr::new(0, 0), 0), Err(RomError::Format));
}

#[test]
fn machine_names() {
    let rom: Vec<u8> = vec![];
    assert_eq!(get_item_name(&rom, 201).unwrap(), "TM01");
    assert_eq!(get_item_name(&rom, 250).unwrap(), "TM50");
    assert_eq!(get_item_name(&rom, 255).unwrap(), "HM05");
}

#[test]
fn number_formatting() {
    assert_eq!(decimal(0), "0");
    assert_eq!(decimal(42), "42");
    assert_eq!(decimal(255), "255");
    assert_eq!(decimal_padded(7, 3), "007");
    assert_eq!(decimal_padded(7, 2), "07");
    assert_eq!(hex2(0x0b), "0b");
    assert_eq!(hex2(0xed), "ed");
}

#[test]
fn fixed_name_stops_before_undecodable_byte() {
    let raw: Vec<u8> = vec![0x80, 0x81, 0x50, 0x00];
    assert_eq!(decode_text_fixed(&raw, 4).unwrap(), "AB");
    assert_eq!(get_item_name(&vec![], 251).unwrap(), "HM01");
}
