use vstd::prelude::*;

use crate::addresses::{MAP_ENTITY_DECALS_BANK, MAP_ENTITY_DECALS_OFFSET};
use crate::image::{Image2bpp, SpritePosition, SPRITE_PIXELS_1D, SPRITE_SIZE};
use crate::pokedex::Pokedex;
use crate::reader::{Addr, BlobSlicer, Reader, RomError};
use crate::structures::{EntityDecal, MapEntity, RomStructureTable};
use crate::text::{get_item_name, get_text_command};
use crate::tiling::tiles_to_2x2_rowmajor;
use crate::trainers::TrainerPokemonTeam;

verus! {

/// Which way an entity picture faces.
#[derive(Debug, Clone, Copy, PartialEq, Eq, Structural)]
pub enum DecalOrientation {
    /// No direction: the first frame, whatever the behaviour.
    Default,
    Down,
    Up,
    Left,
    Right,
}

#[derive(Debug, Clone, Copy, PartialEq, Eq, Structural)]
pub enum DecalBehaviour {
    Still,
    Walking,
}

/// What an entity is.
pub enum EntityData {
    NormalPeople { text: String },
    Trainer { class_id: u8, team: TrainerPokemonTeam, text: Option<String> },
    Pokemon { dex_id: u8, level: u8 },
    Item { name: String, text: Option<String> },
}

/// An entity of a location: its square and what it is.
pub struct EntityInfo {
    pub pos: SpritePosition,
    pub data: EntityData,
}

/// The text that stands for a script instead of a message.
fn script_marker() -> (r: String)
    ensures
        r@ == "<Script>"@,
{
    "<Script>".to_string()
}

/// First trainer class id in an entity's extra id.
pub const TRAINER_CLASS_BASE: u8 = 0xc9;

impl EntityInfo {
    /// Interprets a raw entity: bit 7 of its text id marks an item, bit 6 a
    /// trainer (extra id from 0xc9) or a lone creature (below). Both bits set,
    /// a position above the border (below 4), or a text that does not match
    /// the kind are consistency errors.
    pub fn new(raw: &MapEntity, stream: &Vec<u8>, text_addr: Addr) -> (r: Result<
        EntityInfo,
        RomError,
    >)
        ensures
            r is Ok ==> raw.x >= 4 && raw.y >= 4 && r->Ok_0.pos == SpritePosition(
                (raw.x - 4) as u8,
                (raw.y - 4) as u8,
            ),
            r is Ok && raw.text_id & 0xc0 == 0 ==> r->Ok_0.data is NormalPeople,
            r is Ok && raw.text_id & 0x80 != 0 ==> r->Ok_0.data is Item,
            r is Ok && raw.text_id & 0x40 != 0 && raw.extra_id >= TRAINER_CLASS_BASE
                ==> r->Ok_0.data is Trainer,
            r is Ok && raw.text_id & 0x40 != 0 && raw.extra_id < TRAINER_CLASS_BASE
                ==> r->Ok_0.data is Pokemon,
    {
        let t = raw.text_id;
        assert(t & 0xc0 == 0 <==> (t & 0x80 == 0 && t & 0x40 == 0)) by (bit_vector);
        let text_id = t & 0x3f;
        if text_id == 0 {
            return Err(RomError::Format);
        }
        let table = RomStructureTable::<u16>::new_at(stream, text_addr);
        let addr = Addr::new(text_addr.bank, table.entry_at(text_id - 1)?);
        let mut reader = Reader::new_at(stream, addr);
        let text = get_text_command(&mut reader)?;
        if raw.x < 4 || raw.y < 4 {
            return Err(RomError::Consistency);
        }
        let pos = SpritePosition(raw.x - 4, raw.y - 4);
        let script = script_marker();
        let is_script = text == script;
        let data = if raw.text_id & 0x80 != 0 {
            if raw.text_id & 0x40 != 0 {
                return Err(RomError::Consistency);
            }
            if raw.extra_id != 0 {
                if !is_script {
                    return Err(RomError::Consistency);
                }
                let name = get_item_name(stream, raw.extra_id)?;
                EntityData::Item { name, text: None }
            } else {
                // Two items hold a script of their own.
                if is_script {
                    return Err(RomError::Consistency);
                }
                EntityData::Item { name: "unknown".to_string(), text: Some(text) }
            }
        } else if raw.text_id & 0x40 != 0 {
            if raw.extra_id >= TRAINER_CLASS_BASE {
                // Trainer texts are scripts, but for one trainer.
                let text = if is_script {
                    None
                } else {
                    Some(text)
                };
                let class_id = raw.extra_id - TRAINER_CLASS_BASE;
                let team = TrainerPokemonTeam::new(stream, class_id, raw.extra_num)?;
                EntityData::Trainer { text, class_id, team }
            } else {
                if !is_script {
                    return Err(RomError::Consistency);
                }
                EntityData::Pokemon {
                    dex_id: Pokedex::rom_id_to_dex_id(stream, raw.extra_id)?,
                    level: raw.extra_num,
                }
            }
        } else {
            EntityData::NormalPeople { text }
        };
        Ok(EntityInfo { pos, data })
    }
}

/// Next state of the linear congruential generator.
pub open spec fn lcg_next(x: u32) -> u32 {
    ((1664525 * x + 1013904223) % 0x1_0000_0000) as u32
}

/// Byte of a sprite row (two tiles, two bytes each) that lands on byte `k`
/// when the row is mirrored: the other tile, same bit plane.
pub open spec fn mirror_index(k: int) -> int {
    k - k % 4 + (k % 4 + 2) % 4
}

/// Orientation bytes: wandering in any direction (0), vertically (1) or
/// horizontally (2), a boulder (0x10), facing down, up, left or right
/// (0xd0 to 0xd3), or no direction (0xff).
pub open spec fn known_orientation(o: u8) -> bool {
    o <= 2 || o == 0x10 || (0xd0 <= o <= 0xd3) || o == 0xff
}

/// Bits of `b` in reverse order.
pub open spec fn reversed_bits(b: u8) -> u8 {
    ((b & 1) << 7u8) | ((b & 2) << 5u8) | ((b & 4) << 3u8) | ((b & 8) << 1u8) | ((b & 16) >> 1u8)
        | ((b & 32) >> 3u8) | ((b & 64) >> 5u8) | ((b & 128) >> 7u8)
}

pub fn reverse_bits(b: u8) -> (r: u8)
    ensures
        r == reversed_bits(b),
{
    ((b & 1) << 7) | ((b & 2) << 5) | ((b & 4) << 3) | ((b & 8) << 1) | ((b & 16) >> 1) | ((b & 32)
        >> 3) | ((b & 64) >> 5) | ((b & 128) >> 7)
}

impl MapEntity {
    /// One of `choices`, picked by the next state of the generator `rng`.
    pub fn random_choice<T: Copy>(rng: &mut u32, choices: Vec<T>) -> (r: T)
        requires
            choices@.len() > 0,
        ensures
            *final(rng) == lcg_next(*old(rng)),
            r == choices@[(lcg_next(*old(rng)) as int) % choices@.len() as int],
    {
        let x = *rng;
        let m = 1664525u32.wrapping_mul(x);
        let y = m.wrapping_add(1013904223u32);
        assert(y == lcg_next(x)) by (nonlinear_arith)
            requires
                m == (1664525 * x) % 0x1_0000_0000,
                y == (m + 1013904223) % 0x1_0000_0000,
        ;
        *rng = y;
        choices[(*rng as usize) % choices.len()]
    }

    /// Mirrors a 16x16 sprite left to right: in each row of two tiles the
    /// tiles swap and the bits of each byte reverse.
    pub fn hflip_sprite(sprite: &mut Vec<u8>)
        requires
            old(sprite)@.len() == SPRITE_SIZE,
        ensures
            final(sprite)@.len() == SPRITE_SIZE,
            forall|k: int|
                0 <= k < SPRITE_SIZE ==> #[trigger] final(sprite)@[k] == reversed_bits(
                    old(sprite)@[mirror_index(k)],
                ),
    {
        let mut out: Vec<u8> = Vec::new();
        let mut k: usize = 0;
        while k < SPRITE_SIZE
            invariant
                k <= SPRITE_SIZE,
                sprite@.len() == SPRITE_SIZE,
                out@.len() == k,
                forall|i: int|
                    0 <= i < k ==> #[trigger] out@[i] == reversed_bits(sprite@[mirror_index(i)]),
            decreases SPRITE_SIZE - k,
        {
            let from = k - k % 4 + (k % 4 + 2) % 4;
            assert(from < 64);
            out.push(reverse_bits(sprite[from]));
            k = k + 1;
        }
        *sprite = out;
    }

    /// The 16x16 picture of the entity: the frame of its behaviour (still or
    /// walking, from its movement byte) and facing (from its orientation
    /// byte; random among the allowed ones for wandering entities, drawn
    /// from `rng`), mirrored when facing right.
    pub fn get_sprite(&self, stream: &Vec<u8>, rng: &mut u32) -> (r: Result<Image2bpp, RomError>)
        ensures
            r is Ok ==> r->Ok_0.wf() && r->Ok_0.width == SPRITE_PIXELS_1D && r->Ok_0.height
                == SPRITE_PIXELS_1D,
            self.movement != 0xfe && self.movement != 0xff ==> r is Err,
            !known_orientation(self.orientation) ==> r is Err,
            self.pic_id == 0 ==> r is Err,
            self.movement == 0xfe && (self.orientation == 0x10 || self.orientation == 0xff)
                ==> r is Err,
            (self.movement == 0xfe || self.movement == 0xff) && self.orientation <= 2 ==> *final(rng)
                == lcg_next(*old(rng)),
            !((self.movement == 0xfe || self.movement == 0xff) && self.orientation <= 2)
                ==> *final(rng) == *old(rng),
    {
        let behaviour = if self.movement == 0xfe {
            DecalBehaviour::Walking
        } else if self.movement == 0xff {
            DecalBehaviour::Still
        } else {
            return Err(RomError::Format);
        };
        let orient = match self.orientation {
            0x00 => Self::random_choice(
                rng,
                vec![
                    DecalOrientation::Down,
                    DecalOrientation::Up,
                    DecalOrientation::Left,
                    DecalOrientation::Right,
                ],
            ),
            0x01 => Self::random_choice(rng, vec![DecalOrientation::Down, DecalOrientation::Up]),
            0x02 => Self::random_choice(rng, vec![DecalOrientation::Left, DecalOrientation::Right]),
            0x10 => DecalOrientation::Default,
            0xd0 => DecalOrientation::Down,
            0xd1 => DecalOrientation::Up,
            0xd2 => DecalOrientation::Left,
            0xd3 => DecalOrientation::Right,
            0xff => DecalOrientation::Default,
            _ => {
                return Err(RomError::Format);
            },
        };
        if self.pic_id == 0 {
            return Err(RomError::Format);
        }
        let table = RomStructureTable::<EntityDecal>::new_at(
            stream,
            Addr::new(MAP_ENTITY_DECALS_BANK, MAP_ENTITY_DECALS_OFFSET),
        );
        let decal = table.entry_at(self.pic_id - 1)?;
        // Up to six frames of 2x2 tiles: still down, up, left, then walking
        // down, up, left. Right is left mirrored.
        let decals_slicer = BlobSlicer::<64>::new_at(stream, Addr::new(decal.bank, decal.addr));
        let offset: u8 = match behaviour {
            DecalBehaviour::Still => 0,
            DecalBehaviour::Walking => 3,
        };
        let decal_id: u8 = match orient {
            DecalOrientation::Down => offset,
            DecalOrientation::Up => offset + 1,
            DecalOrientation::Left => offset + 2,
            DecalOrientation::Right => offset + 2,
            DecalOrientation::Default => {
                if behaviour != DecalBehaviour::Still {
                    return Err(RomError::Consistency);
                }
                0
            },
        };
        let tiles = decals_slicer.slice_at(decal_id)?;
        assert(tiles@.len() == SPRITE_SIZE);
        let mut sprite = tiles_to_2x2_rowmajor(&tiles);
        if orient == DecalOrientation::Right {
            Self::hflip_sprite(&mut sprite);
        }
        Ok(Image2bpp::from_data(SPRITE_PIXELS_1D, SPRITE_PIXELS_1D, sprite))
    }
}

} // verus!
