use vstd::prelude::*;

use crate::addresses::{
    at, get_name_pointer, NamePointer, TRAINER_CLASS_BANK, TRAINER_CLASS_OFFSET, TRAINER_HEADER_BANK,
    TRAINER_HEADER_OFFSET,
};
use crate::image::Image2bpp;
use crate::pokedex::{dex_of, Pokedex};
use crate::reader::{Addr, Reader, RomError};
use crate::sprites::Decoder;
use crate::structures::{table_readable, RomStructureTable, TrainerHeader};
use crate::text::{append, hex2, load_packed_text_id};

verus! {

/// A member of a trainer's party.
pub struct TrainerPokemonMember {
    pub level: u8,
    pub dex_id: u8,
}

impl TrainerPokemonMember {
    pub fn new(stream: &Vec<u8>, level: u8, mon_id: u8) -> (r: Result<TrainerPokemonMember, RomError>)
        ensures
            r is Ok ==> r->Ok_0.level == level && r->Ok_0.dex_id == dex_of(stream@, mon_id),
    {
        let dex_id = Pokedex::rom_id_to_dex_id(stream, mon_id)?;
        Ok(TrainerPokemonMember { level, dex_id })
    }
}

/// A trainer's party.
pub struct TrainerPokemonTeam(pub Vec<TrainerPokemonMember>);

/// Reads bytes up to and including a 0; returns those before it.
fn read_until_zero(reader: &mut Reader) -> (r: Result<Vec<u8>, RomError>)
    ensures
        final(reader).stream == old(reader).stream,
        r is Ok ==> forall|i: int| 0 <= i < r->Ok_0@.len() ==> #[trigger] r->Ok_0@[i] != 0,
{
    let mut out: Vec<u8> = Vec::new();
    loop
        invariant
            reader.stream == old(reader).stream,
            reader.addr.addr < 0x8000 || reader.addr == old(reader).addr,
            forall|i: int| 0 <= i < out@.len() ==> #[trigger] out@[i] != 0,
        decreases 0x10000 - reader.addr.addr,
    {
        let v = reader.read_u8()?;
        if v == 0 {
            return Ok(out);
        }
        out.push(v);
    }
}

impl TrainerPokemonTeam {
    /// Party `set_id` (counting from 1) of trainer class `class_id`. The
    /// parties of a class follow each other, each ended by a 0. A party
    /// starts with a level byte: a level shared by the species ids that
    /// follow, or 0xff for (level, species id) pairs.
    pub fn new(stream: &Vec<u8>, class_id: u8, set_id: u8) -> (r: Result<
        TrainerPokemonTeam,
        RomError,
    >)
        ensures
            !table_readable::<u16>(stream@, at(TRAINER_CLASS_BANK, TRAINER_CLASS_OFFSET), class_id as int)
                ==> r is Err,
    {
        let parties_table = RomStructureTable::<u16>::new_at(
            stream,
            Addr::new(TRAINER_CLASS_BANK, TRAINER_CLASS_OFFSET),
        );
        let parties_addr = Addr::new(TRAINER_CLASS_BANK, parties_table.entry_at(class_id)?);
        let mut reader = Reader::new_at(stream, parties_addr);
        let mut k: u8 = 1;
        while k < set_id
            invariant
                reader.stream == stream,
            decreases set_id - k,
        {
            read_until_zero(&mut reader)?;
            k = k + 1;
        }
        let level = reader.read_u8()?;
        let raw_data = read_until_zero(&mut reader)?;
        let mut team: Vec<TrainerPokemonMember> = Vec::new();
        if level != 0xff {
            let mut i: usize = 0;
            while i < raw_data.len()
                invariant
                    i <= raw_data@.len(),
                decreases raw_data@.len() - i,
            {
                team.push(TrainerPokemonMember::new(stream, level, raw_data[i])?);
                i = i + 1;
            }
        } else {
            let mut i: usize = 0;
            while raw_data.len() - i >= 2
                invariant
                    i <= raw_data@.len(),
                decreases raw_data@.len() - i,
            {
                team.push(TrainerPokemonMember::new(stream, raw_data[i], raw_data[i + 1])?);
                i = i + 2;
            }
        }
        Ok(TrainerPokemonTeam(team))
    }
}

/// What is exported of a trainer class.
pub struct TrainerClassInfo {
    pub name: String,
    pub sprite_path: String,
    /// Base prize money; the prize is this times the last member's level.
    pub base_money: u8,
}

/// Base money from the middle byte of the 3-byte BCD amount.
pub open spec fn bcd_money(b: u8) -> int {
    (b >> 4u8) * 10 + (b & 0xf)
}

impl TrainerClassInfo {
    /// Name, picture path and base money of class `id`. The money is a
    /// 3-byte BCD amount whose cents and hundreds must be 0 (a consistency
    /// error otherwise).
    pub fn load(stream: &Vec<u8>, header: &TrainerHeader, id: u8) -> (r: Result<
        TrainerClassInfo,
        RomError,
    >)
        ensures
            (header.money[0] != 0 || header.money[2] != 0) ==> r is Err,
            r is Ok ==> r->Ok_0.base_money == bcd_money(header.money[1]),
    {
        if id == 0xff {
            return Err(RomError::Consistency);
        }
        let text_addr = get_name_pointer(stream, NamePointer::Trainers)?;
        let name = load_packed_text_id(stream, text_addr, id + 1)?;
        let money = header.money;
        if money[0] != 0 || money[2] != 0 {
            return Err(RomError::Consistency);
        }
        let m1 = money[1];
        let hi = m1 >> 4;
        let lo = m1 & 0xf;
        assert(hi <= 15 && lo <= 15) by (bit_vector)
            requires
                hi == m1 >> 4u8,
                lo == m1 & 0xf,
        ;
        let base_money = hi * 10 + lo;
        let mut sprite_path = String::new();
        append(&mut sprite_path, "trainers/trainer-");
        let hex = hex2(id);
        append(&mut sprite_path, hex.as_str());
        append(&mut sprite_path, "-");
        append(&mut sprite_path, name.as_str());
        append(&mut sprite_path, ".png");
        Ok(TrainerClassInfo { name, sprite_path, base_money })
    }
}

/// A trainer class and its picture.
pub struct TrainerClass {
    pub info: TrainerClassInfo,
    pub pic: Image2bpp,
}

/// Bank of the trainer pictures.
pub const TRAINER_PIC_BANK: u8 = 0x13;

impl TrainerClass {
    pub fn new(stream: &Vec<u8>, header: &TrainerHeader, id: u8) -> (r: Result<TrainerClass, RomError>)
        ensures
            r is Ok ==> r->Ok_0.pic.wf() && r->Ok_0.pic.width == 56 && r->Ok_0.pic.height == 56,
    {
        let info = TrainerClassInfo::load(stream, header, id)?;
        let mut decoder = Decoder::new(stream, Addr::new(TRAINER_PIC_BANK, header.pic_addr));
        let pic = decoder.load_sprite()?;
        Ok(TrainerClass { info, pic })
    }
}

/// All trainer classes in use.
pub struct Trainers(pub Vec<TrainerClass>);

impl Trainers {
    /// The first `nb_trainers` classes of the header table (fewer than 255).
    pub fn load(stream: &Vec<u8>, nb_trainers: usize) -> (r: Result<Trainers, RomError>)
        ensures
            nb_trainers >= 0xff ==> r is Err,
            r is Ok ==> r->Ok_0.0@.len() == nb_trainers,
    {
        if nb_trainers >= 0xff {
            return Err(RomError::Consistency);
        }
        let table = RomStructureTable::<TrainerHeader>::new_at(
            stream,
            Addr::new(TRAINER_HEADER_BANK, TRAINER_HEADER_OFFSET),
        );
        let mut trainers: Vec<TrainerClass> = Vec::new();
        let mut id: usize = 0;
        while id < nb_trainers
            invariant
                id <= nb_trainers,
                nb_trainers < 0xff,
                trainers@.len() == id,
            decreases nb_trainers - id,
        {
            let header = table.entry_at(id as u8)?;
            trainers.push(TrainerClass::new(stream, &header, id as u8)?);
            id = id + 1;
        }
        Ok(Trainers(trainers))
    }

    /// What is exported of each class, in order.
    pub fn export_info(&self) -> (r: Vec<&TrainerClassInfo>)
        ensures
            r@.len() == self.0@.len(),
            forall|i: int| 0 <= i < r@.len() ==> *(#[trigger] r@[i]) == self.0@[i].info,
    {
        let mut out: Vec<&TrainerClassInfo> = Vec::new();
        let mut i: usize = 0;
        while i < self.0.len()
            invariant
                i <= self.0@.len(),
                out@.len() == i,
                forall|j: int| 0 <= j < i ==> *(#[trigger] out@[j]) == self.0@[j].info,
            decreases self.0@.len() - i,
        {
            out.push(&self.0[i].info);
            i = i + 1;
        }
        out
    }
}

} // verus!
