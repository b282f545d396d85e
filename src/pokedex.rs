use vstd::prelude::*;

use crate::addresses::{
    at, get_name_pointer, get_pic_bank_from_rom_pkmn_id, NamePointer, PKMN_DETAILS_BANK,
    PKMN_DETAILS_OFFSET, PKMN_EVENTS_BANK, PKMN_EVENTS_OFFSET, PKMN_HEADERS_BANK,
    PKMN_HEADERS_OFFSET, PKMN_MEW_HEADER_BANK, PKMN_MEW_HEADER_OFFSET, PKMN_ORDER_BANK,
    PKMN_ORDER_OFFSET, PKMN_TYPES_BANK, PKMN_TYPES_OFFSET, TEXT_TMHM_NAMES_BANK,
    TEXT_TMHM_NAMES_OFFSET,
};
use crate::image::Image2bpp;
use crate::reader::{rom_u8, span_readable, Addr, BlobSlicer, Reader, RomError};
use crate::sprites::Decoder;
use crate::structures::{
    table_entry, table_readable, PokemonHeader, RomStructure, RomStructureTable,
};
use crate::text::{
    append, decimal, decimal_padded, decimal_u16, decode_text_fixed, get_item_name, get_text,
    get_text_command, load_packed_text_id,
};

verus! {

/// How a species evolves, and into which species (pokedex number).
pub enum Evolution {
    Level { pkmn_id: u8, level: u8 },
    Stone { pkmn_id: u8, stone: String },
    Exchange { pkmn_id: u8 },
}

/// Everything exported of a species.
pub struct PokemonInfo {
    pub name: String,
    pub species_name: String,
    pub types: Vec<String>,
    pub height: String,
    pub weight: String,
    pub desc: String,
    pub hp: u8,
    pub atk: u8,
    pub def: u8,
    pub spd: u8,
    pub spe: u8,
    pub cap: u8,
    pub exp: u8,
    /// Moves known from the start (level 0), then those learnt by level.
    pub attacks: Vec<(u8, String)>,
    pub growth_rate: String,
    pub evolutions: Vec<Evolution>,
    /// Moves taught by machines: (move name, machine name).
    pub tmhm: Vec<(String, String)>,
    pub sprite_front_path: String,
    pub sprite_back_path: String,
}

/// Codes of the growth rates.
pub open spec fn known_growth_rate(code: u8) -> bool {
    code == 0 || code == 3 || code == 4 || code == 5
}

/// Name of a growth rate code.
pub open spec fn growth_name(code: u8) -> Seq<char> {
    if code == 0 {
        "Medium Fast"@
    } else if code == 3 {
        "Medium Slow"@
    } else if code == 4 {
        "Fast"@
    } else {
        "Slow"@
    }
}

/// Number of machine moves among ids below `m` that the flags allow.
pub open spec fn machine_count(flags: [u8; 8], m: int) -> int
    decreases m,
{
    if m <= 0 {
        0
    } else {
        machine_count(flags, m - 1) + if knows_machine(flags, m - 1) {
            1int
        } else {
            0
        }
    }
}

/// Text of a growth rate code; `None` for an unknown code.
pub fn growth_rate_name(code: u8) -> (r: Option<&'static str>)
    ensures
        r is Some <==> known_growth_rate(code),
        r is Some ==> r->Some_0@ == growth_name(code),
{
    match code {
        0 => Some("Medium Fast"),
        3 => Some("Medium Slow"),
        4 => Some("Fast"),
        5 => Some("Slow"),
        _ => None,
    }
}

/// The species can learn machine move `id` (0 for TM01 to 54 for HM05):
/// bit `id` of the little-endian 8-byte flag field.
pub open spec fn knows_machine(flags: [u8; 8], id: int) -> bool {
    (flags[id / 8] >> ((id % 8) as u8)) & 1 == 1
}

/// Reads text at `addr`, up to a terminator.
fn text_at(stream: &Vec<u8>, addr: Addr) -> (r: Result<String, RomError>) {
    let mut reader = Reader::new_at(stream, addr);
    get_text(&mut reader)
}

impl PokemonInfo {
    /// Decodes the information of the species whose header is `header`:
    /// name, pokedex entry (species, height, weight, description), types,
    /// moves, evolutions, growth rate and machine moves. Unknown codes are
    /// format errors; a stone or trade evolution must carry level 1.
    pub fn load(stream: &Vec<u8>, header: &PokemonHeader) -> (r: Result<PokemonInfo, RomError>)
        ensures
            r is Ok ==> ({
                let info = r->Ok_0;
                &&& info.hp == header.hp && info.atk == header.atk && info.def == header.def
                &&& info.spd == header.spd && info.spe == header.spe
                &&& info.cap == header.capture_rate && info.exp == header.base_exp_yield
                &&& 1 <= info.types@.len() <= 2
                &&& info.growth_rate@ == growth_name(header.growth_rate)
                &&& info.tmhm@.len() == machine_count(header.tmhm_flags, 55)
                &&& info.types@.len() == 2 <==> header.types[1] != header.types[0]
            }),
            !known_growth_rate(header.growth_rate) ==> r is Err,
    {
        let id = header.id;
        let rom_id = Pokedex::dex_id_to_rom_id(stream, id)?;

        // Names: fixed 10-byte buffers, not terminated when full.
        let names_addr = get_name_pointer(stream, NamePointer::Pokemons)?;
        let slicer = BlobSlicer::<10>::new_at(stream, names_addr);
        let raw_name = slicer.slice_at(rom_id - 1)?;
        let name = decode_text_fixed(&raw_name, 10)?;

        // Pokedex entry, of variable size because of the species name.
        let table = RomStructureTable::<u16>::new_at(
            stream,
            Addr::new(PKMN_DETAILS_BANK, PKMN_DETAILS_OFFSET),
        );
        let entry_addr = Addr::new(PKMN_DETAILS_BANK, table.entry_at(rom_id - 1)?);
        let mut reader = Reader::new_at(stream, entry_addr);
        let species_name = get_text(&mut reader)?;
        let height_feet = reader.read_u8()?;
        let height_inches = reader.read_u8()?;
        let weight_pounds = reader.read_u16()?;
        let mut height = decimal(height_feet);
        append(&mut height, "'");
        let inches = decimal_padded(height_inches, 2);
        append(&mut height, inches.as_str());
        append(&mut height, "\"");
        let mut weight = decimal_u16(weight_pounds / 10);
        append(&mut weight, ".");
        let tenths = decimal_u16(weight_pounds % 10);
        append(&mut weight, tenths.as_str());
        append(&mut weight, "lb");
        let desc = get_text_command(&mut reader)?;

        // Types: the second only when it differs from the first.
        let table = RomStructureTable::<u16>::new_at(
            stream,
            Addr::new(PKMN_TYPES_BANK, PKMN_TYPES_OFFSET),
        );
        let mut types: Vec<String> = Vec::new();
        let t0 = text_at(stream, Addr::new(PKMN_TYPES_BANK, table.entry_at(header.types[0])?))?;
        types.push(t0);
        if header.types[1] != header.types[0] {
            let t1 = text_at(stream, Addr::new(PKMN_TYPES_BANK, table.entry_at(header.types[1])?))?;
            types.push(t1);
        }

        // Initial moves, up to the first empty slot.
        let moves_addr = get_name_pointer(stream, NamePointer::Attacks)?;
        let mut attacks: Vec<(u8, String)> = Vec::new();
        let mut k: usize = 0;
        while k < 4 && header.initial_atk[k] != 0
            invariant
                k <= 4,
            decreases 4 - k,
        {
            attacks.push((0, load_packed_text_id(stream, moves_addr, header.initial_atk[k])?));
            k = k + 1;
        }

        // Events, part 1: evolutions, up to a 0.
        let table = RomStructureTable::<u16>::new_at(
            stream,
            Addr::new(PKMN_EVENTS_BANK, PKMN_EVENTS_OFFSET),
        );
        let events_addr = Addr::new(PKMN_EVENTS_BANK, table.entry_at(rom_id - 1)?);
        let mut reader = Reader::new_at(stream, events_addr);
        let mut evolutions: Vec<Evolution> = Vec::new();
        loop
            invariant
                reader.stream == stream,
                reader.addr.addr < 0x8000 || reader.addr == events_addr,
            decreases 0x10000 - reader.addr.addr,
        {
            let evo_type = reader.read_u8()?;
            if evo_type == 0 {
                break;
            }
            let evo = if evo_type == 1 {
                let level = reader.read_u8()?;
                let pkmn_id = Pokedex::rom_id_to_dex_id(stream, reader.read_u8()?)?;
                Evolution::Level { level, pkmn_id }
            } else if evo_type == 2 {
                let item_id = reader.read_u8()?;
                let level = reader.read_u8()?;
                if level != 1 {
                    return Err(RomError::Format);
                }
                let stone = get_item_name(stream, item_id)?;
                let pkmn_id = Pokedex::rom_id_to_dex_id(stream, reader.read_u8()?)?;
                Evolution::Stone { stone, pkmn_id }
            } else if evo_type == 3 {
                let level = reader.read_u8()?;
                if level != 1 {
                    return Err(RomError::Format);
                }
                let pkmn_id = Pokedex::rom_id_to_dex_id(stream, reader.read_u8()?)?;
                Evolution::Exchange { pkmn_id }
            } else {
                return Err(RomError::Format);
            };
            evolutions.push(evo);
        }

        // Events, part 2: moves learnt by level, up to a 0.
        loop
            invariant
                reader.stream == stream,
                reader.addr.addr < 0x8000 || reader.addr == events_addr,
            decreases 0x10000 - reader.addr.addr,
        {
            let level = reader.read_u8()?;
            if level == 0 {
                break;
            }
            let atk = reader.read_u8()?;
            attacks.push((level, load_packed_text_id(stream, moves_addr, atk)?));
        }

        let growth_rate = match growth_rate_name(header.growth_rate) {
            Some(g) => g.to_string(),
            None => {
                return Err(RomError::Format);
            },
        };

        // Machine moves: item ids 201 to 255 (TM01 to HM05).
        let table = RomStructureTable::<u8>::new_at(
            stream,
            Addr::new(TEXT_TMHM_NAMES_BANK, TEXT_TMHM_NAMES_OFFSET),
        );
        let mut tmhm: Vec<(String, String)> = Vec::new();
        let mut m: u8 = 0;
        while m < 55
            invariant
                m <= 55,
                tmhm@.len() == machine_count(header.tmhm_flags, m as int),
            decreases 55 - m,
        {
            let flags = header.tmhm_flags[(m / 8) as usize];
            assert(knows_machine(header.tmhm_flags, m as int) == ((flags >> (m % 8)) & 1 == 1));
            if (flags >> (m % 8)) & 1 == 1 {
                let move_id = table.entry_at(m)?;
                let item_name = get_item_name(stream, 201 + m)?;
                let move_name = load_packed_text_id(stream, moves_addr, move_id)?;
                tmhm.push((move_name, item_name));
            }
            m = m + 1;
        }

        let number = decimal_padded(id, 3);
        let mut sprite_front_path = String::new();
        append(&mut sprite_front_path, "pkmn/pkmn-front-");
        append(&mut sprite_front_path, number.as_str());
        append(&mut sprite_front_path, "-");
        append(&mut sprite_front_path, name.as_str());
        append(&mut sprite_front_path, ".png");
        let mut sprite_back_path = String::new();
        append(&mut sprite_back_path, "pkmn/pkmn-back-");
        append(&mut sprite_back_path, number.as_str());
        append(&mut sprite_back_path, "-");
        append(&mut sprite_back_path, name.as_str());
        append(&mut sprite_back_path, ".png");

        Ok(PokemonInfo {
            name,
            species_name,
            types,
            height,
            weight,
            desc,
            hp: header.hp,
            atk: header.atk,
            def: header.def,
            spd: header.spd,
            spe: header.spe,
            cap: header.capture_rate,
            exp: header.base_exp_yield,
            attacks,
            growth_rate,
            evolutions,
            tmhm,
            sprite_front_path,
            sprite_back_path,
        })
    }
}

/// A species: its information and its two pictures.
pub struct Pokemon {
    pub info: PokemonInfo,
    pub pic_front: Image2bpp,
    pub pic_back: Image2bpp,
}

impl Pokemon {
    /// Decodes a species and its front and back sprites, from the bank its
    /// internal id selects.
    pub fn new(stream: &Vec<u8>, header: &PokemonHeader) -> (r: Result<Pokemon, RomError>)
        ensures
            r is Ok ==> r->Ok_0.pic_front.wf() && r->Ok_0.pic_front.width == 56
                && r->Ok_0.pic_back.wf() && r->Ok_0.pic_back.width == 56,
    {
        let info = PokemonInfo::load(stream, header)?;
        let rom_id = Pokedex::dex_id_to_rom_id(stream, header.id)?;
        let bank = get_pic_bank_from_rom_pkmn_id(rom_id);
        let mut dec_front = Decoder::new(stream, Addr::new(bank, header.sprite_front_addr));
        let mut dec_back = Decoder::new(stream, Addr::new(bank, header.sprite_back_addr));
        let pic_front = dec_front.load_sprite()?;
        let pic_back = dec_back.load_sprite()?;
        Ok(Pokemon { info, pic_front, pic_back })
    }
}

/// Number of species listed in the main header table.
pub const HEADER_TABLE_SPECIES: u8 = 150;

/// The species, in pokedex order.
pub struct Pokedex(pub Vec<Pokemon>);

/// Pokedex number of internal species id `rom_id` (ids count from 1).
pub open spec fn dex_of(s: Seq<u8>, rom_id: u8) -> u8 {
    table_entry::<u8>(s, at(PKMN_ORDER_BANK, PKMN_ORDER_OFFSET), rom_id - 1)
}

impl Pokedex {
    /// Every species: the ordered header table, then the one header kept
    /// apart. A header out of order is a consistency error.
    pub fn load(stream: &Vec<u8>) -> (r: Result<Pokedex, RomError>)
        ensures
            r is Ok ==> r->Ok_0.0@.len() == HEADER_TABLE_SPECIES + 1,
    {
        let mut pokedex: Vec<Pokemon> = Vec::new();
        let table = RomStructureTable::<PokemonHeader>::new_at(
            stream,
            Addr::new(PKMN_HEADERS_BANK, PKMN_HEADERS_OFFSET),
        );
        let mut i: u8 = 0;
        while i < HEADER_TABLE_SPECIES
            invariant
                i <= HEADER_TABLE_SPECIES,
                pokedex@.len() == i,
            decreases HEADER_TABLE_SPECIES - i,
        {
            let header = table.entry_at(i)?;
            if header.id != i + 1 {
                return Err(RomError::Consistency);
            }
            pokedex.push(Pokemon::new(stream, &header)?);
            i = i + 1;
        }
        let mut mew_reader = Reader::new_at(
            stream,
            Addr::new(PKMN_MEW_HEADER_BANK, PKMN_MEW_HEADER_OFFSET),
        );
        let mew_header = PokemonHeader::read(&mut mew_reader)?;
        if mew_header.id != HEADER_TABLE_SPECIES + 1 {
            return Err(RomError::Consistency);
        }
        pokedex.push(Pokemon::new(stream, &mew_header)?);
        Ok(Pokedex(pokedex))
    }

    /// What is exported of each species, in order.
    pub fn export_info(&self) -> (r: Vec<&PokemonInfo>)
        ensures
            r@.len() == self.0@.len(),
            forall|i: int| 0 <= i < r@.len() ==> *(#[trigger] r@[i]) == self.0@[i].info,
    {
        let mut out: Vec<&PokemonInfo> = Vec::new();
        let mut i: usize = 0;
        while i < self.0.len()
            invariant
                i <= self.0@.len(),
                out@.len() == i,
                forall|j: int| 0 <= j < i ==> *(#[trigger] out@[j]) == self.0@[j].info,
            decreases self.0@.len() - i,
        {
            out.push(&self.0[i].info);
            i = i + 1;
        }
        out
    }

    /// Pokedex number of an internal species id; id 0 names no species.
    pub fn rom_id_to_dex_id(stream: &Vec<u8>, rom_id: u8) -> (r: Result<u8, RomError>)
        ensures
            rom_id == 0 ==> r == Err::<u8, RomError>(RomError::Format),
            rom_id != 0 ==> (r is Ok <==> table_readable::<u8>(
                stream@,
                at(PKMN_ORDER_BANK, PKMN_ORDER_OFFSET),
                rom_id - 1,
            )),
            r is Ok ==> r->Ok_0 == dex_of(stream@, rom_id),
    {
        if rom_id == 0 {
            return Err(RomError::Format);
        }
        let table = RomStructureTable::<u8>::new_at(
            stream,
            Addr::new(PKMN_ORDER_BANK, PKMN_ORDER_OFFSET),
        );
        match table.entry_at(rom_id - 1) {
            Ok(v) => Ok(v),
            Err(_) => Err(RomError::Address),
        }
    }

    /// Internal id of a pokedex number: the first id, from 1 to 254, whose
    /// entry of the order table holds it, as the game itself searches.
    pub fn dex_id_to_rom_id(stream: &Vec<u8>, dex_id: u8) -> (r: Result<u8, RomError>)
        ensures
            r is Ok ==> 1 <= r->Ok_0 < 255 && span_readable(
                stream@,
                at(PKMN_ORDER_BANK, PKMN_ORDER_OFFSET),
                r->Ok_0 as int,
            ) && rom_u8(stream@, at(PKMN_ORDER_BANK, PKMN_ORDER_OFFSET), r->Ok_0 - 1) == dex_id
                && forall|k: int|
                0 <= k < r->Ok_0 - 1 ==> rom_u8(stream@, at(PKMN_ORDER_BANK, PKMN_ORDER_OFFSET), k)
                    != dex_id,
            r is Err && span_readable(stream@, at(PKMN_ORDER_BANK, PKMN_ORDER_OFFSET), 254)
                ==> r->Err_0 == RomError::Format && forall|k: int|
                0 <= k < 254 ==> rom_u8(stream@, at(PKMN_ORDER_BANK, PKMN_ORDER_OFFSET), k)
                    != dex_id,
    {
        let base = Addr::new(PKMN_ORDER_BANK, PKMN_ORDER_OFFSET);
        let reader = Reader::new_at(stream, base);
        let mut rom_id: u8 = 1;
        while rom_id < 255
            invariant
                1 <= rom_id <= 255,
                reader.stream == stream,
                reader.addr == base,
                base == at(PKMN_ORDER_BANK, PKMN_ORDER_OFFSET),
                forall|k: int| 0 <= k < rom_id - 1 ==> rom_u8(stream@, base, k) != dex_id,
            decreases 255 - rom_id,
        {
            if !reader.check_read(rom_id as usize) {
                return Err(RomError::Address);
            }
            if reader.peek_u8((rom_id - 1) as usize) == dex_id {
                return Ok(rom_id);
            }
            rom_id = rom_id + 1;
        }
        Err(RomError::Format)
    }
}

} // verus!
