use vstd::prelude::*;

use crate::reader::{Addr, RomError};
use crate::structures::{table_entry, table_readable, RomStructureTable};

verus! {

/// The address of bank `bank`, offset `addr`.
pub open spec fn at(bank: u8, addr: u16) -> Addr {
    Addr { bank, addr }
}

/// Banks of the location headers, one byte per location id.
pub const MAP_HEADER_BANKS_BANK: u8 = 0x03;
pub const MAP_HEADER_BANKS_OFFSET: u16 = 0x423d;
/// Offsets of the location headers, one word per location id.
pub const MAP_HEADER_POINTERS_BANK: u8 = 0x00;
pub const MAP_HEADER_POINTERS_OFFSET: u16 = 0x01ae;
pub const MAP_TILESETS_BANK: u8 = 0x03;
pub const MAP_TILESETS_OFFSET: u16 = 0x47be;
pub const MAP_ENTITY_DECALS_BANK: u8 = 0x05;
pub const MAP_ENTITY_DECALS_OFFSET: u16 = 0x7b27;

pub const MAP_HIDDENS_BANK: u8 = 0x11;
pub const MAP_HIDDENS_OFFSET: u16 = 0x6a40;
pub const MAP_HIDDEN_ITEMS_SCRIPT_BANK: u8 = 0x1d;
pub const MAP_HIDDEN_ITEMS_SCRIPT_OFFSET: u16 = 0x6688;
pub const MAP_HIDDEN_COINS_SCRIPT_BANK: u8 = 0x1d;
pub const MAP_HIDDEN_COINS_SCRIPT_OFFSET: u16 = 0x6799;

pub const MAP_WILD_PKMN_BANK: u8 = 0x03;
pub const MAP_WILD_PKMN_OFFSET: u16 = 0x4eeb;
pub const WILD_PKMN_PROBABILITIES_BANK: u8 = 0x04;
pub const WILD_PKMN_PROBABILITIES_OFFSET: u16 = 0x7918;

/// Pokedex order of the species.
pub const PKMN_ORDER_BANK: u8 = 0x10;
pub const PKMN_ORDER_OFFSET: u16 = 0x5024;
/// Headers of the first 150 species.
pub const PKMN_HEADERS_BANK: u8 = 0x0e;
pub const PKMN_HEADERS_OFFSET: u16 = 0x43de;
/// The last species' header lives apart from the others.
pub const PKMN_MEW_HEADER_BANK: u8 = 0x01;
pub const PKMN_MEW_HEADER_OFFSET: u16 = 0x425b;
pub const PKMN_TYPES_BANK: u8 = 0x09;
pub const PKMN_TYPES_OFFSET: u16 = 0x7dae;
/// Detailed pokedex entries.
pub const PKMN_DETAILS_BANK: u8 = 0x10;
pub const PKMN_DETAILS_OFFSET: u16 = 0x447e;
/// Evolutions and learnsets.
pub const PKMN_EVENTS_BANK: u8 = 0x0e;
pub const PKMN_EVENTS_OFFSET: u16 = 0x705c;

pub const TEXT_TMHM_NAMES_BANK: u8 = 0x04;
pub const TEXT_TMHM_NAMES_OFFSET: u16 = 0x7773;
/// Table of pointers to the name lists; it holds no banks.
pub const TEXT_NAME_POINTERS_BANK: u8 = 0x00;
pub const TEXT_NAME_POINTERS_OFFSET: u16 = 0x375d;

pub const TRAINER_CLASS_BANK: u8 = 0x0e;
pub const TRAINER_CLASS_OFFSET: u16 = 0x5d3b;
pub const TRAINER_HEADER_BANK: u8 = 0x0e;
pub const TRAINER_HEADER_OFFSET: u16 = 0x5914;

/// The name lists reachable through the name pointer table.
#[derive(Debug, Clone, Copy, PartialEq, Eq, Structural)]
pub enum NamePointer {
    Pokemons,
    Attacks,
    Items,
    Trainers,
}

/// Slot of a name list in the pointer table, and the bank the list lives in.
pub open spec fn name_slot(id: NamePointer) -> (u8, u8) {
    match id {
        NamePointer::Pokemons => (0, 0x07),
        NamePointer::Attacks => (1, 0x2c),
        NamePointer::Items => (3, 0x01),
        NamePointer::Trainers => (6, 0x0e),
    }
}

/// Address of a name list: its pointer from the table, in its fixed bank.
pub fn get_name_pointer(stream: &Vec<u8>, id: NamePointer) -> (r: Result<Addr, RomError>)
    ensures
        ({
            let (index, bank) = name_slot(id);
            let table = at(TEXT_NAME_POINTERS_BANK, TEXT_NAME_POINTERS_OFFSET);
            &&& r is Ok <==> table_readable::<u16>(stream@, table, index as int)
            &&& r is Ok ==> r->Ok_0 == at(bank, table_entry::<u16>(stream@, table, index as int))
            &&& r is Err ==> r->Err_0 == RomError::Address
        }),
{
    let (index, bank): (u8, u8) = match id {
        NamePointer::Pokemons => (0, 0x07),
        NamePointer::Attacks => (1, 0x2c),
        NamePointer::Items => (3, 0x01),
        NamePointer::Trainers => (6, 0x0e),
    };
    let table = RomStructureTable::<u16>::new_at(
        stream,
        Addr::new(TEXT_NAME_POINTERS_BANK, TEXT_NAME_POINTERS_OFFSET),
    );
    let ptr = table.entry_at(index)?;
    Ok(Addr::new(bank, ptr))
}

/// Bank that holds the pictures of a species, by its internal id.
pub open spec fn pic_bank(pkmn_id: u8) -> u8 {
    if pkmn_id == 0x15 {
        0x01
    } else if pkmn_id == 0xb6 {
        0x0b
    } else if pkmn_id < 0x1f {
        0x09
    } else if pkmn_id < 0x4a {
        0x0a
    } else if pkmn_id < 0x74 {
        0x0b
    } else if pkmn_id < 0x99 {
        0x0c
    } else {
        0x0d
    }
}

pub fn get_pic_bank_from_rom_pkmn_id(pkmn_id: u8) -> (r: u8)
    ensures
        r == pic_bank(pkmn_id),
{
    if pkmn_id == 0x15 {
        0x01
    } else if pkmn_id == 0xb6 {
        0x0b
    } else if pkmn_id < 0x1f {
        0x09
    } else if pkmn_id < 0x4a {
        0x0a
    } else if pkmn_id < 0x74 {
        0x0b
    } else if pkmn_id < 0x99 {
        0x0c
    } else {
        0x0d
    }
}

} // verus!
